//! Server-to-client messages.
//!
//! Each message is decoded from a frame `type(1) | length(4) | body`. The
//! `decode` functions are specified against the reading rules of
//! [`crate::util`]: a message decodes to the value that the `spec_*` function
//! of the same name gives for the bytes, and fails with exactly the error it
//! gives.

use std::collections::HashMap;
use vstd::prelude::*;
use vstd::utf8::*;

use crate::util::{
    lemma_i16_at_subrange, lemma_i32_at_subrange, lemma_nul_index_skip, nul_index,
    i16_at, i16_bytes, i32_at, i32_bytes, lemma_i16_bytes, lemma_i32_bytes, spec_read_bytes,
    spec_read_cstring, spec_read_i16, spec_read_i32, spec_read_u8, CodecError, DecodeError, Reader,
    Step, Unexpected,
};

verus! {

broadcast use vstd::std_specs::hash::group_hash_axioms;

/// The type of server-to-client messages.
#[derive(Debug, Clone)]
pub enum Message {
    /// A message regarding authentication.
    Authentication(Authentication),
    /// An error occured.
    Error(Error),
    /// A notice in relation to a request.
    Notice(Notice),
    /// A parameter status has changed.
    ParameterStatus(ParameterStatus),
    /// A key necessary for issuing cancel requests.
    KeyData(KeyData),
    /// The server is ready for a new query.
    ReadyForQuery,
    /// A response to an empty query.
    /// This is issued instead of `CommandComplete` for empty queries.
    EmptyQuery,
    /// A command completed successfully.
    CommandComplete(CommandComplete),
    /// Information about the columns of a result set.
    RowDescription(RowDescription),
    /// A row of data from a result set.
    DataRow(DataRow),
}

/// The different types of authentication responses.
#[derive(Debug, Clone)]
pub enum Authentication {
    /// The authentication was successful (`AuthenticationOk`).
    Success,
    /// The server asks for the password in clear text.
    CleartextPassword,
    /// The server requested SASL authentication using one of the
    /// mechanisms specified in the list.
    Sasl(Vec<String>),
    /// The server provided data for continuing SASL authentication.
    SaslContinue(Vec<u8>),
    /// SASL authentication is complete.
    SaslFinal(Vec<u8>),
}

/// A response indicating that an error occurred.
#[derive(Debug, Clone)]
pub struct Error {
    fields: HashMap<u8, String>,
}

/// A message indicating a notice in relation to a request.
#[derive(Debug, Clone)]
pub struct Notice {
    fields: HashMap<u8, String>,
}

/// A message indicating that a parameter status has changed.
#[derive(Debug, Clone)]
pub struct ParameterStatus {
    /// The name of the parameter that changed.
    name: String,
    /// The new value of the parameter.
    value: String,
}

/// A message including a key necessary for issuing cancel requests.
#[derive(Debug, Clone, Copy, PartialEq, Eq, Structural)]
pub struct KeyData {
    /// The process ID of the server process that generated the key.
    process_id: i32,
    /// The secret key necessary for issuing cancel requests.
    secret_key: i32,
}

/// A response indicating that a command completed successfully.
#[derive(Debug, Clone)]
pub struct CommandComplete {
    /// The command tag of the completed command.
    tag: String,
}

/// The result of a (select-like) query.
#[derive(Debug, Clone)]
pub struct QueryResult {
    /// The row description of the query.
    pub row_description: RowDescription,
    /// The data rows of the query.
    pub data_rows: Vec<DataRow>,
}

/// Information about the columns of a result set.
#[derive(Debug, Clone, PartialEq, Eq, Hash)]
pub struct RowDescription {
    pub fields: Vec<FieldDescription>,
}

/// A row containing a series of data cells representing a row in a [`QueryResult`].
#[derive(Debug, Clone, PartialEq, Eq, Hash)]
pub struct DataRow {
    /// The different data fields in this row.
    pub(crate) fields: Vec<Data>,
}

/// A field in a data row: its raw bytes, or `None` for SQL `NULL`.
#[derive(Debug, Clone, PartialEq, Eq, Hash)]
pub struct Data(Option<Vec<u8>>);

/// Information about a field in a result set.
#[derive(Debug, Clone, PartialEq, Eq, Hash)]
pub struct FieldDescription {
    /// The name of the field.
    pub name: String,
    /// If the field is a column of a table, the object ID
    /// of the table containing the field.
    pub table_oid: Option<i32>,
    /// If the field is a column of a table, the attribute number of the column.
    pub attribute_number: Option<i16>,
    /// The object ID of the data type of the field.
    pub data_type_oid: i32,
    /// The length of the field in bytes.
    pub data_type_size: i16,
    /// The type modifier of the field.
    pub data_type_modifier: i32,
    /// The format code of the field.
    ///
    /// This is `0` for text format and `1` for binary format.
    pub format_code: FormatCode,
}

/// The format code of a field.
#[derive(Debug, Clone, Copy, PartialEq, Eq, Hash, Structural)]
pub enum FormatCode {
    /// Text format.
    Text,
    /// Binary format.
    Binary,
}

// ---------------------------------------------------------------------------
// Mathematical models
// ---------------------------------------------------------------------------

/// What a [`FieldDescription`] says, with the name as characters.
pub struct FieldModel {
    pub name: Seq<char>,
    pub table_oid: Option<i32>,
    pub attribute_number: Option<i16>,
    pub data_type_oid: i32,
    pub data_type_size: i16,
    pub data_type_modifier: i32,
    pub format_code: FormatCode,
}

/// What an [`Authentication`] says.
pub enum AuthenticationModel {
    Success,
    CleartextPassword,
    Sasl(Seq<Seq<char>>),
    SaslContinue(Seq<u8>),
    SaslFinal(Seq<u8>),
}

/// What a [`Message`] says.
pub enum MessageModel {
    Authentication(AuthenticationModel),
    Error(Map<u8, Seq<char>>),
    Notice(Map<u8, Seq<char>>),
    ParameterStatus(Seq<char>, Seq<char>),
    KeyData(i32, i32),
    ReadyForQuery,
    EmptyQuery,
    CommandComplete(Seq<char>),
    RowDescription(Seq<FieldModel>),
    DataRow(Seq<Option<Seq<u8>>>),
}

/// The characters of each string of a map.
pub open spec fn strings_of_map(m: Map<u8, String>) -> Map<u8, Seq<char>> {
    m.map_values(|s: String| s@)
}

impl View for Data {
    type V = Option<Seq<u8>>;

    closed spec fn view(&self) -> Option<Seq<u8>> {
        match self.0 {
            Some(v) => Some(v@),
            None => None,
        }
    }
}

impl View for FieldDescription {
    type V = FieldModel;

    open spec fn view(&self) -> FieldModel {
        FieldModel {
            name: self.name@,
            table_oid: self.table_oid,
            attribute_number: self.attribute_number,
            data_type_oid: self.data_type_oid,
            data_type_size: self.data_type_size,
            data_type_modifier: self.data_type_modifier,
            format_code: self.format_code,
        }
    }
}

impl View for RowDescription {
    type V = Seq<FieldModel>;

    open spec fn view(&self) -> Seq<FieldModel> {
        self.fields@.map_values(|f: FieldDescription| f@)
    }
}

impl View for DataRow {
    type V = Seq<Option<Seq<u8>>>;

    closed spec fn view(&self) -> Seq<Option<Seq<u8>>> {
        self.fields@.map_values(|d: Data| d@)
    }
}

impl View for Error {
    type V = Map<u8, Seq<char>>;

    closed spec fn view(&self) -> Map<u8, Seq<char>> {
        strings_of_map(self.fields@)
    }
}

impl View for Notice {
    type V = Map<u8, Seq<char>>;

    closed spec fn view(&self) -> Map<u8, Seq<char>> {
        strings_of_map(self.fields@)
    }
}

impl View for ParameterStatus {
    type V = (Seq<char>, Seq<char>);

    closed spec fn view(&self) -> (Seq<char>, Seq<char>) {
        (self.name@, self.value@)
    }
}

impl View for KeyData {
    type V = (i32, i32);

    closed spec fn view(&self) -> (i32, i32) {
        (self.process_id, self.secret_key)
    }
}

impl View for CommandComplete {
    type V = Seq<char>;

    closed spec fn view(&self) -> Seq<char> {
        self.tag@
    }
}

impl View for Authentication {
    type V = AuthenticationModel;

    open spec fn view(&self) -> AuthenticationModel {
        match self {
            Authentication::Success => AuthenticationModel::Success,
            Authentication::CleartextPassword => AuthenticationModel::CleartextPassword,
            Authentication::Sasl(m) => AuthenticationModel::Sasl(
                m@.map_values(|s: String| s@),
            ),
            Authentication::SaslContinue(d) => AuthenticationModel::SaslContinue(d@),
            Authentication::SaslFinal(d) => AuthenticationModel::SaslFinal(d@),
        }
    }
}

impl View for Message {
    type V = MessageModel;

    open spec fn view(&self) -> MessageModel {
        match self {
            Message::Authentication(a) => MessageModel::Authentication(a@),
            Message::Error(e) => MessageModel::Error(e@),
            Message::Notice(n) => MessageModel::Notice(n@),
            Message::ParameterStatus(s) => MessageModel::ParameterStatus(s@.0, s@.1),
            Message::KeyData(k) => MessageModel::KeyData(k@.0, k@.1),
            Message::ReadyForQuery => MessageModel::ReadyForQuery,
            Message::EmptyQuery => MessageModel::EmptyQuery,
            Message::CommandComplete(c) => MessageModel::CommandComplete(c@),
            Message::RowDescription(d) => MessageModel::RowDescription(d@),
            Message::DataRow(d) => MessageModel::DataRow(d@),
        }
    }
}

// ---------------------------------------------------------------------------
// The decoding rules
// ---------------------------------------------------------------------------

pub open spec fn eof<T>() -> Result<T, DecodeError> {
    Err(DecodeError::UnexpectedEof)
}

/// `0` stands for "none" in the optional integers of a field description.
pub open spec fn nonzero_i32(v: i32) -> Option<i32> {
    if v == 0 {
        None
    } else {
        Some(v)
    }
}

pub open spec fn nonzero_i16(v: i16) -> Option<i16> {
    if v == 0 {
        None
    } else {
        Some(v)
    }
}

/// One field descriptor: `name\0 tableOid(4) attrNum(2) typeOid(4)
/// typeSize(2) typeModifier(4) formatCode(2)`.
pub open spec fn spec_field_description(b: Seq<u8>, p: nat) -> Step<FieldModel> {
    match spec_read_cstring(b, p) {
        Err(e) => Err(e),
        Ok((name, q)) => if q + 18 > b.len() {
            eof()
        } else {
            let code = i16_at(b, (q + 16) as int);
            if code != 0 && code != 1 {
                Err(DecodeError::UnexpectedValue(Unexpected::FormatCode(code)))
            } else {
                Ok(
                    (
                        FieldModel {
                            name,
                            table_oid: nonzero_i32(i32_at(b, q as int)),
                            attribute_number: nonzero_i16(i16_at(b, (q + 4) as int)),
                            data_type_oid: i32_at(b, (q + 6) as int),
                            data_type_size: i16_at(b, (q + 10) as int),
                            data_type_modifier: i32_at(b, (q + 12) as int),
                            format_code: if code == 0 {
                                FormatCode::Text
                            } else {
                                FormatCode::Binary
                            },
                        },
                        q + 18,
                    ),
                )
            }
        },
    }
}

/// `n` field descriptors in a row, appended to `acc`.
pub open spec fn spec_field_descriptions(b: Seq<u8>, p: nat, n: nat, acc: Seq<FieldModel>) -> Step<
    Seq<FieldModel>,
>
    decreases n,
{
    if n == 0 {
        Ok((acc, p))
    } else {
        match spec_field_description(b, p) {
            Err(e) => Err(e),
            Ok((f, q)) => spec_field_descriptions(b, q, (n - 1) as nat, acc.push(f)),
        }
    }
}

/// The body of a row description, after the type byte: the length (not
/// checked), a field count that must not be negative, and that many field
/// descriptors.
pub open spec fn spec_row_description(b: Seq<u8>, p: nat) -> Result<Seq<FieldModel>, DecodeError> {
    if p + 4 > b.len() {
        eof()
    } else {
        match spec_read_i16(b, p + 4) {
            Err(e) => Err(e),
            Ok((n, q)) => if n < 0 {
                Err(DecodeError::UnexpectedValue(Unexpected::FieldCount(n)))
            } else {
                match spec_field_descriptions(b, q, n as nat, seq![]) {
                    Err(e) => Err(e),
                    Ok((fields, _)) => Ok(fields),
                }
            },
        }
    }
}

/// One value of a data row: its length, then that many bytes; a negative
/// length stands for `NULL` and has no bytes.
pub open spec fn spec_data_value(b: Seq<u8>, p: nat) -> Step<Option<Seq<u8>>> {
    match spec_read_i32(b, p) {
        Err(e) => Err(e),
        Ok((size, q)) => if size < 0 {
            Ok((None, q))
        } else {
            match spec_read_bytes(b, q, size as nat) {
                Err(e) => Err(e),
                Ok((v, r)) => Ok((Some(v), r)),
            }
        },
    }
}

/// `n` values in a row, appended to `acc`.
pub open spec fn spec_data_values(b: Seq<u8>, p: nat, n: nat, acc: Seq<Option<Seq<u8>>>) -> Step<
    Seq<Option<Seq<u8>>>,
>
    decreases n,
{
    if n == 0 {
        Ok((acc, p))
    } else {
        match spec_data_value(b, p) {
            Err(e) => Err(e),
            Ok((v, q)) => spec_data_values(b, q, (n - 1) as nat, acc.push(v)),
        }
    }
}

/// The body of a data row, after the type byte: the length (not checked), a
/// value count that must not be negative, and that many values.
pub open spec fn spec_data_row(b: Seq<u8>, p: nat) -> Result<Seq<Option<Seq<u8>>>, DecodeError> {
    if p + 4 > b.len() {
        eof()
    } else {
        match spec_read_i16(b, p + 4) {
            Err(e) => Err(e),
            Ok((n, q)) => if n < 0 {
                Err(DecodeError::UnexpectedValue(Unexpected::FieldCount(n)))
            } else {
                match spec_data_values(b, q, n as nat, seq![]) {
                    Err(e) => Err(e),
                    Ok((values, _)) => Ok(values),
                }
            },
        }
    }
}

/// NUL-terminated strings until a bare NUL byte (which is not consumed),
/// appended to `acc`.
pub open spec fn spec_cstring_list(b: Seq<u8>, p: nat, acc: Seq<Seq<char>>) -> Result<
    Seq<Seq<char>>,
    DecodeError,
>
    decreases b.len() - p,
{
    match spec_read_u8(b, p) {
        Err(e) => Err(e),
        Ok((c, _)) => if c == 0 {
            Ok(acc)
        } else {
            match spec_read_cstring(b, p) {
                Err(e) => Err(e),
                // A string read moves past `p` and stays within `b`, so the
                // guard always holds; it makes the recursion visibly end.
                Ok((s, q)) => if p < q <= b.len() {
                    spec_cstring_list(b, q, acc.push(s))
                } else {
                    eof()
                },
            }
        },
    }
}

/// `(fieldCode(1), value\0)` pairs until a bare NUL byte (which is not
/// consumed), inserted into `acc` in order: a later value for a code
/// replaces an earlier one.
pub open spec fn spec_field_map(b: Seq<u8>, p: nat, acc: Map<u8, Seq<char>>) -> Result<
    Map<u8, Seq<char>>,
    DecodeError,
>
    decreases b.len() - p,
{
    match spec_read_u8(b, p) {
        Err(e) => Err(e),
        Ok((code, p1)) => if code == 0 {
            Ok(acc)
        } else {
            match spec_read_cstring(b, p1) {
                Err(e) => Err(e),
                // A string read moves past `p` and stays within `b`, so the
                // guard always holds; it makes the recursion visibly end.
                Ok((s, q)) => if p < q <= b.len() {
                    spec_field_map(b, q, acc.insert(code, s))
                } else {
                    eof()
                },
            }
        },
    }
}

/// The body of an error or notice response, after the type byte.
pub open spec fn spec_error(b: Seq<u8>, p: nat) -> Result<Map<u8, Seq<char>>, DecodeError> {
    if p + 4 > b.len() {
        eof()
    } else {
        spec_field_map(b, p + 4, Map::empty())
    }
}

/// The body of an authentication request, after the type byte.
pub open spec fn spec_authentication(b: Seq<u8>, p: nat) -> Result<AuthenticationModel, DecodeError> {
    if p + 4 > b.len() {
        eof()
    } else {
        match spec_read_i32(b, p + 4) {
            Err(e) => Err(e),
            Ok((kind, q)) => if kind == 0 || kind == 3 {
                if q == b.len() {
                    Ok(
                        if kind == 0 {
                            AuthenticationModel::Success
                        } else {
                            AuthenticationModel::CleartextPassword
                        },
                    )
                } else {
                    eof()
                }
            } else if kind == 10 {
                match spec_cstring_list(b, q, seq![]) {
                    Err(e) => Err(e),
                    Ok(names) => Ok(AuthenticationModel::Sasl(names)),
                }
            } else if kind == 11 {
                Ok(AuthenticationModel::SaslContinue(b.subrange(q as int, b.len() as int)))
            } else if kind == 12 {
                Ok(AuthenticationModel::SaslFinal(b.subrange(q as int, b.len() as int)))
            } else {
                Err(DecodeError::UnexpectedValue(Unexpected::AuthenticationType(kind)))
            },
        }
    }
}

/// The body of a parameter status, after the type byte: name and value.
pub open spec fn spec_parameter_status(b: Seq<u8>, p: nat) -> Result<
    (Seq<char>, Seq<char>),
    DecodeError,
> {
    if p + 4 > b.len() {
        eof()
    } else {
        match spec_read_cstring(b, p + 4) {
            Err(e) => Err(e),
            Ok((name, q)) => match spec_read_cstring(b, q) {
                Err(e) => Err(e),
                Ok((value, _)) => Ok((name, value)),
            },
        }
    }
}

/// The body of the key data, after the type byte: process ID and secret key.
pub open spec fn spec_key_data(b: Seq<u8>, p: nat) -> Result<(i32, i32), DecodeError> {
    if p + 12 > b.len() {
        eof()
    } else {
        Ok((i32_at(b, (p + 4) as int), i32_at(b, (p + 8) as int)))
    }
}

/// The body of a command completion, after the type byte: the command tag.
pub open spec fn spec_command_complete(b: Seq<u8>, p: nat) -> Result<Seq<char>, DecodeError> {
    if p + 4 > b.len() {
        eof()
    } else {
        match spec_read_cstring(b, p + 4) {
            Err(e) => Err(e),
            Ok((tag, _)) => Ok(tag),
        }
    }
}

/// A whole backend message at position `p`: the type byte selects the rule
/// for the body; an unknown type byte is an error.
pub open spec fn spec_message(b: Seq<u8>, p: nat) -> Result<MessageModel, DecodeError> {
    match spec_read_u8(b, p) {
        Err(e) => Err(e),
        Ok((tag, q)) => if tag == TAG_READY_FOR_QUERY {
            Ok(MessageModel::ReadyForQuery)
        } else if tag == TAG_EMPTY_QUERY {
            Ok(MessageModel::EmptyQuery)
        } else if tag == TAG_AUTHENTICATION {
            match spec_authentication(b, q) {
                Err(e) => Err(e),
                Ok(a) => Ok(MessageModel::Authentication(a)),
            }
        } else if tag == TAG_ERROR {
            match spec_error(b, q) {
                Err(e) => Err(e),
                Ok(m) => Ok(MessageModel::Error(m)),
            }
        } else if tag == TAG_NOTICE {
            match spec_error(b, q) {
                Err(e) => Err(e),
                Ok(m) => Ok(MessageModel::Notice(m)),
            }
        } else if tag == TAG_PARAMETER_STATUS {
            match spec_parameter_status(b, q) {
                Err(e) => Err(e),
                Ok((name, value)) => Ok(MessageModel::ParameterStatus(name, value)),
            }
        } else if tag == TAG_KEY_DATA {
            match spec_key_data(b, q) {
                Err(e) => Err(e),
                Ok((process_id, secret_key)) => Ok(MessageModel::KeyData(process_id, secret_key)),
            }
        } else if tag == TAG_COMMAND_COMPLETE {
            match spec_command_complete(b, q) {
                Err(e) => Err(e),
                Ok(t) => Ok(MessageModel::CommandComplete(t)),
            }
        } else if tag == TAG_ROW_DESCRIPTION {
            match spec_row_description(b, q) {
                Err(e) => Err(e),
                Ok(f) => Ok(MessageModel::RowDescription(f)),
            }
        } else if tag == TAG_DATA_ROW {
            match spec_data_row(b, q) {
                Err(e) => Err(e),
                Ok(v) => Ok(MessageModel::DataRow(v)),
            }
        } else {
            Err(DecodeError::UnexpectedValue(Unexpected::MessageType(tag)))
        },
    }
}

/// Every type of backend message the protocol defines, named by its type
/// byte. Only some of them are decoded by [`Message::decode`].
#[derive(Debug, Clone, Copy, PartialEq, Eq, Hash, Structural)]
pub enum BackendMessageType {
    /// `'R'`
    Authentication,
    /// `'K'`
    CancellationKeyData,
    /// `'2'`
    BindComplete,
    /// `'3'`
    CloseComplete,
    /// `'C'`
    CommandComplete,
    /// `'d'`
    CopyData,
    /// `'c'`
    CopyDone,
    /// `'G'`
    CopyIn,
    /// `'H'`
    CopyOut,
    /// `'W'`
    CopyBoth,
    /// `'D'`
    DataRow,
    /// `'I'`
    EmptyQuery,
    /// `'E'`
    Error,
    /// `'V'`
    FunctionCall,
    /// `'v'`
    NegotiateProtocolVersion,
    /// `'n'`
    NoData,
    /// `'N'`
    Notice,
    /// `'A'`
    Notification,
    /// `'t'`
    ParameterDescription,
    /// `'S'`
    ParameterStatus,
    /// `'1'`
    ParseComplete,
    /// `'s'`
    PortalSuspended,
    /// `'Z'`
    ReadyForQuery,
    /// `'T'`
    RowDescription,
}

/// The type byte of a backend message type.
pub open spec fn backend_type_byte(t: BackendMessageType) -> u8 {
    match t {
        BackendMessageType::Authentication => 0x52,
        BackendMessageType::CancellationKeyData => 0x4b,
        BackendMessageType::BindComplete => 0x32,
        BackendMessageType::CloseComplete => 0x33,
        BackendMessageType::CommandComplete => 0x43,
        BackendMessageType::CopyData => 0x64,
        BackendMessageType::CopyDone => 0x63,
        BackendMessageType::CopyIn => 0x47,
        BackendMessageType::CopyOut => 0x48,
        BackendMessageType::CopyBoth => 0x57,
        BackendMessageType::DataRow => 0x44,
        BackendMessageType::EmptyQuery => 0x49,
        BackendMessageType::Error => 0x45,
        BackendMessageType::FunctionCall => 0x56,
        BackendMessageType::NegotiateProtocolVersion => 0x76,
        BackendMessageType::NoData => 0x6e,
        BackendMessageType::Notice => 0x4e,
        BackendMessageType::Notification => 0x41,
        BackendMessageType::ParameterDescription => 0x74,
        BackendMessageType::ParameterStatus => 0x53,
        BackendMessageType::ParseComplete => 0x31,
        BackendMessageType::PortalSuspended => 0x73,
        BackendMessageType::ReadyForQuery => 0x5a,
        BackendMessageType::RowDescription => 0x54,
    }
}

/// The backend message type with type byte `b`, if there is one.
pub open spec fn spec_backend_type(b: u8) -> Option<BackendMessageType> {
    if b == 0x52 {
        Some(BackendMessageType::Authentication)
    } else if b == 0x4b {
        Some(BackendMessageType::CancellationKeyData)
    } else if b == 0x32 {
        Some(BackendMessageType::BindComplete)
    } else if b == 0x33 {
        Some(BackendMessageType::CloseComplete)
    } else if b == 0x43 {
        Some(BackendMessageType::CommandComplete)
    } else if b == 0x64 {
        Some(BackendMessageType::CopyData)
    } else if b == 0x63 {
        Some(BackendMessageType::CopyDone)
    } else if b == 0x47 {
        Some(BackendMessageType::CopyIn)
    } else if b == 0x48 {
        Some(BackendMessageType::CopyOut)
    } else if b == 0x57 {
        Some(BackendMessageType::CopyBoth)
    } else if b == 0x44 {
        Some(BackendMessageType::DataRow)
    } else if b == 0x49 {
        Some(BackendMessageType::EmptyQuery)
    } else if b == 0x45 {
        Some(BackendMessageType::Error)
    } else if b == 0x56 {
        Some(BackendMessageType::FunctionCall)
    } else if b == 0x76 {
        Some(BackendMessageType::NegotiateProtocolVersion)
    } else if b == 0x6e {
        Some(BackendMessageType::NoData)
    } else if b == 0x4e {
        Some(BackendMessageType::Notice)
    } else if b == 0x41 {
        Some(BackendMessageType::Notification)
    } else if b == 0x74 {
        Some(BackendMessageType::ParameterDescription)
    } else if b == 0x53 {
        Some(BackendMessageType::ParameterStatus)
    } else if b == 0x31 {
        Some(BackendMessageType::ParseComplete)
    } else if b == 0x73 {
        Some(BackendMessageType::PortalSuspended)
    } else if b == 0x5a {
        Some(BackendMessageType::ReadyForQuery)
    } else if b == 0x54 {
        Some(BackendMessageType::RowDescription)
    } else {
        None
    }
}

impl BackendMessageType {
    /// The type of a backend message from its type byte.
    pub fn try_from(value: u8) -> (r: Result<Self, DecodeError>)
        ensures
            match spec_backend_type(value) {
                Some(t) => r == Ok::<Self, DecodeError>(t),
                None => r == Err::<Self, DecodeError>(
                    DecodeError::UnexpectedValue(Unexpected::MessageType(value)),
                ),
            },
    {
        if value == 0x52 {
            Ok(BackendMessageType::Authentication)
        } else if value == 0x4b {
            Ok(BackendMessageType::CancellationKeyData)
        } else if value == 0x32 {
            Ok(BackendMessageType::BindComplete)
        } else if value == 0x33 {
            Ok(BackendMessageType::CloseComplete)
        } else if value == 0x43 {
            Ok(BackendMessageType::CommandComplete)
        } else if value == 0x64 {
            Ok(BackendMessageType::CopyData)
        } else if value == 0x63 {
            Ok(BackendMessageType::CopyDone)
        } else if value == 0x47 {
            Ok(BackendMessageType::CopyIn)
        } else if value == 0x48 {
            Ok(BackendMessageType::CopyOut)
        } else if value == 0x57 {
            Ok(BackendMessageType::CopyBoth)
        } else if value == 0x44 {
            Ok(BackendMessageType::DataRow)
        } else if value == 0x49 {
            Ok(BackendMessageType::EmptyQuery)
        } else if value == 0x45 {
            Ok(BackendMessageType::Error)
        } else if value == 0x56 {
            Ok(BackendMessageType::FunctionCall)
        } else if value == 0x76 {
            Ok(BackendMessageType::NegotiateProtocolVersion)
        } else if value == 0x6e {
            Ok(BackendMessageType::NoData)
        } else if value == 0x4e {
            Ok(BackendMessageType::Notice)
        } else if value == 0x41 {
            Ok(BackendMessageType::Notification)
        } else if value == 0x74 {
            Ok(BackendMessageType::ParameterDescription)
        } else if value == 0x53 {
            Ok(BackendMessageType::ParameterStatus)
        } else if value == 0x31 {
            Ok(BackendMessageType::ParseComplete)
        } else if value == 0x73 {
            Ok(BackendMessageType::PortalSuspended)
        } else if value == 0x5a {
            Ok(BackendMessageType::ReadyForQuery)
        } else if value == 0x54 {
            Ok(BackendMessageType::RowDescription)
        } else {
            Err(DecodeError::UnexpectedValue(Unexpected::MessageType(value)))
        }
    }

    /// The type byte of this message type.
    pub fn as_byte(&self) -> (r: u8)
        ensures
            r == backend_type_byte(*self),
    {
        match self {
            BackendMessageType::Authentication => 0x52,
            BackendMessageType::CancellationKeyData => 0x4b,
            BackendMessageType::BindComplete => 0x32,
            BackendMessageType::CloseComplete => 0x33,
            BackendMessageType::CommandComplete => 0x43,
            BackendMessageType::CopyData => 0x64,
            BackendMessageType::CopyDone => 0x63,
            BackendMessageType::CopyIn => 0x47,
            BackendMessageType::CopyOut => 0x48,
            BackendMessageType::CopyBoth => 0x57,
            BackendMessageType::DataRow => 0x44,
            BackendMessageType::EmptyQuery => 0x49,
            BackendMessageType::Error => 0x45,
            BackendMessageType::FunctionCall => 0x56,
            BackendMessageType::NegotiateProtocolVersion => 0x76,
            BackendMessageType::NoData => 0x6e,
            BackendMessageType::Notice => 0x4e,
            BackendMessageType::Notification => 0x41,
            BackendMessageType::ParameterDescription => 0x74,
            BackendMessageType::ParameterStatus => 0x53,
            BackendMessageType::ParseComplete => 0x31,
            BackendMessageType::PortalSuspended => 0x73,
            BackendMessageType::ReadyForQuery => 0x5a,
            BackendMessageType::RowDescription => 0x54,
        }
    }
}

/// Each backend message type has its own type byte: reading back the byte
/// of a type gives the type.
pub proof fn lemma_backend_type_byte(t: BackendMessageType)
    ensures
        spec_backend_type(backend_type_byte(t)) == Some(t),
{
}

pub const TAG_AUTHENTICATION: u8 = 0x52;
pub const TAG_ERROR: u8 = 0x45;
pub const TAG_NOTICE: u8 = 0x4e;
pub const TAG_PARAMETER_STATUS: u8 = 0x53;
pub const TAG_KEY_DATA: u8 = 0x4b;
pub const TAG_READY_FOR_QUERY: u8 = 0x5a;
pub const TAG_EMPTY_QUERY: u8 = 0x49;
pub const TAG_COMMAND_COMPLETE: u8 = 0x43;
pub const TAG_ROW_DESCRIPTION: u8 = 0x54;
pub const TAG_DATA_ROW: u8 = 0x44;

// ---------------------------------------------------------------------------
// Decoding
// ---------------------------------------------------------------------------

/// The decode result `r` is what the rule `s` gives: the value (seen through
/// its view) or exactly the rule's error.
pub open spec fn decoded<T: View>(r: Result<T, CodecError>, s: Result<T::V, DecodeError>) -> bool {
    match s {
        Ok(v) => r matches Ok(x) && x@ == v,
        Err(e) => r == Err::<T, CodecError>(CodecError::Decode(e)),
    }
}

impl FieldDescription {
    /// Decode one field descriptor at the reader's position.
    pub fn decode<'a>(reader: &mut Reader<'a>) -> (r: Result<Self, CodecError>)
        requires
            old(reader).wf(),
        ensures
            final(reader).wf(),
            final(reader).bytes() == old(reader).bytes(),
            match spec_field_description(old(reader).bytes(), old(reader).pos()) {
                Ok((f, q)) => r matches Ok(x) && x@ == f && final(reader).pos() == q,
                Err(e) => r == Err::<Self, CodecError>(CodecError::Decode(e)),
            },
    {
        let ghost b = reader.bytes();
        let name = match reader.read_cstring() {
            Ok(s) => s.to_owned(),
            Err(e) => return Err(CodecError::Decode(e)),
        };
        let ghost q = reader.pos();
        let table_oid = match reader.read_i32() {
            Ok(v) => v,
            Err(e) => return Err(CodecError::Decode(e)),
        };
        let attribute_number = match reader.read_i16() {
            Ok(v) => v,
            Err(e) => return Err(CodecError::Decode(e)),
        };
        let data_type_oid = match reader.read_i32() {
            Ok(v) => v,
            Err(e) => return Err(CodecError::Decode(e)),
        };
        let data_type_size = match reader.read_i16() {
            Ok(v) => v,
            Err(e) => return Err(CodecError::Decode(e)),
        };
        let data_type_modifier = match reader.read_i32() {
            Ok(v) => v,
            Err(e) => return Err(CodecError::Decode(e)),
        };
        let code = match reader.read_i16() {
            Ok(v) => v,
            Err(e) => return Err(CodecError::Decode(e)),
        };
        let format_code = if code == 0 {
            FormatCode::Text
        } else if code == 1 {
            FormatCode::Binary
        } else {
            return Err(CodecError::Decode(DecodeError::UnexpectedValue(Unexpected::FormatCode(code))));
        };
        let table_oid = if table_oid == 0 {
            None
        } else {
            Some(table_oid)
        };
        let attribute_number = if attribute_number == 0 {
            None
        } else {
            Some(attribute_number)
        };
        Ok(FieldDescription {
            name,
            table_oid,
            attribute_number,
            data_type_oid,
            data_type_size,
            data_type_modifier,
            format_code,
        })
    }
}

impl Data {
    /// Decode one value of a data row at the reader's position.
    fn decode<'a>(reader: &mut Reader<'a>) -> (r: Result<Self, CodecError>)
        requires
            old(reader).wf(),
        ensures
            final(reader).wf(),
            final(reader).bytes() == old(reader).bytes(),
            match spec_data_value(old(reader).bytes(), old(reader).pos()) {
                Ok((v, q)) => r matches Ok(x) && x@ == v && final(reader).pos() == q,
                Err(e) => r == Err::<Self, CodecError>(CodecError::Decode(e)),
            },
    {
        let size = match reader.read_i32() {
            Ok(v) => v,
            Err(e) => return Err(CodecError::Decode(e)),
        };
        if size < 0 {
            return Ok(Data(None));
        }
        match reader.read_bytes(size as usize) {
            Ok(bytes) => Ok(Data(Some(vstd::slice::slice_to_vec(bytes)))),
            Err(e) => Err(CodecError::Decode(e)),
        }
    }

    /// Whether this value is SQL `NULL`.
    pub fn is_null(&self) -> (r: bool)
        ensures
            r == (self@ is None),
    {
        self.0.is_none()
    }

    /// The raw bytes of this value, or `None` for SQL `NULL`.
    pub fn bytes(&self) -> (r: Option<&[u8]>)
        ensures
            match self@ {
                Some(v) => r matches Some(x) && x@ == v,
                None => r is None,
            },
    {
        match &self.0 {
            Some(v) => Some(v.as_slice()),
            None => None,
        }
    }
}

impl RowDescription {
    /// Decode the body of a row description; the reader stands after the
    /// type byte.
    pub fn decode<'a>(reader: Reader<'a>) -> (r: Result<Self, CodecError>)
        requires
            reader.wf(),
        ensures
            decoded(r, spec_row_description(reader.bytes(), reader.pos())),
    {
        let mut cursor = reader;
        let ghost b = cursor.bytes();
        let ghost p = cursor.pos();
        if let Err(e) = cursor.skip(4) {
            return Err(CodecError::Decode(e));
        }
        let count = match cursor.read_i16() {
            Ok(v) => v,
            Err(e) => return Err(CodecError::Decode(e)),
        };
        if count < 0 {
            return Err(CodecError::Decode(DecodeError::UnexpectedValue(Unexpected::FieldCount(count))));
        }
        let ghost q = cursor.pos();
        let mut fields: Vec<FieldDescription> = Vec::new();
        assert(fields@.map_values(|f: FieldDescription| f@) =~= Seq::<FieldModel>::empty());
        let mut i: i16 = 0;
        while i < count
            invariant
                0 <= i <= count,
                cursor.wf(),
                cursor.bytes() == b,
                b == reader.bytes(),
                p == reader.pos(),
                p + 4 <= b.len(),
                spec_read_i16(b, (p + 4) as nat) == Ok::<(i16, nat), DecodeError>((count, q)),
                spec_field_descriptions(b, q, count as nat, seq![]) == spec_field_descriptions(
                    b,
                    cursor.pos(),
                    (count - i) as nat,
                    fields@.map_values(|f: FieldDescription| f@),
                ),
            decreases count - i,
        {
            let ghost before = fields@.map_values(|f: FieldDescription| f@);
            match FieldDescription::decode(&mut cursor) {
                Ok(f) => {
                    fields.push(f);
                    assert(fields@.map_values(|f: FieldDescription| f@) =~= before.push(f@));
                },
                Err(e) => return Err(e),
            }
            i = i + 1;
        }
        Ok(RowDescription { fields })
    }

    /// Get the index of the first field with the given name.
    pub(crate) fn field_index(&self, name: &str) -> (r: Option<usize>)
        ensures
            match first_index_of(self@, name@) {
                Some(i) => i < self.fields@.len() && (r matches Some(j) && j == i),
                None => r is None,
            },
    {
        proof {
            lemma_first_index_from(self@, name@, 0);
        }
        let wanted = name.to_owned();
        let mut i: usize = 0;
        while i < self.fields.len()
            invariant
                i <= self.fields@.len(),
                wanted@ == name@,
                first_index_of(self@, name@) == first_index_from(self@, name@, i as nat),
            decreases self.fields@.len() - i,
        {
            if self.fields[i].name == wanted {
                return Some(i);
            }
            i = i + 1;
        }
        None
    }
}

/// The index of the first field at or after `i` named `name`.
pub open spec fn first_index_from(fields: Seq<FieldModel>, name: Seq<char>, i: nat) -> Option<nat>
    decreases fields.len() - i,
{
    if i >= fields.len() {
        None
    } else if fields[i as int].name == name {
        Some(i)
    } else {
        first_index_from(fields, name, i + 1)
    }
}

pub proof fn lemma_first_index_from(fields: Seq<FieldModel>, name: Seq<char>, i: nat)
    ensures
        first_index_from(fields, name, i) matches Some(j) ==> i <= j < fields.len()
            && fields[j as int].name == name,
    decreases fields.len() - i,
{
    if i < fields.len() && fields[i as int].name != name {
        lemma_first_index_from(fields, name, i + 1);
    }
}

/// The index of the first field named `name`.
pub open spec fn first_index_of(fields: Seq<FieldModel>, name: Seq<char>) -> Option<nat> {
    first_index_from(fields, name, 0)
}

impl DataRow {
    /// Decode the body of a data row; the reader stands after the type byte.
    pub fn decode<'a>(reader: Reader<'a>) -> (r: Result<Self, CodecError>)
        requires
            reader.wf(),
        ensures
            decoded(r, spec_data_row(reader.bytes(), reader.pos())),
    {
        let mut cursor = reader;
        let ghost b = cursor.bytes();
        let ghost p = cursor.pos();
        if let Err(e) = cursor.skip(4) {
            return Err(CodecError::Decode(e));
        }
        let count = match cursor.read_i16() {
            Ok(v) => v,
            Err(e) => return Err(CodecError::Decode(e)),
        };
        if count < 0 {
            return Err(CodecError::Decode(DecodeError::UnexpectedValue(Unexpected::FieldCount(count))));
        }
        let ghost q = cursor.pos();
        let mut fields: Vec<Data> = Vec::new();
        assert(fields@.map_values(|d: Data| d@) =~= Seq::<Option<Seq<u8>>>::empty());
        let mut i: i16 = 0;
        while i < count
            invariant
                0 <= i <= count,
                cursor.wf(),
                cursor.bytes() == b,
                b == reader.bytes(),
                p == reader.pos(),
                p + 4 <= b.len(),
                spec_read_i16(b, (p + 4) as nat) == Ok::<(i16, nat), DecodeError>((count, q)),
                spec_data_values(b, q, count as nat, seq![]) == spec_data_values(
                    b,
                    cursor.pos(),
                    (count - i) as nat,
                    fields@.map_values(|d: Data| d@),
                ),
            decreases count - i,
        {
            let ghost before = fields@.map_values(|d: Data| d@);
            match Data::decode(&mut cursor) {
                Ok(d) => {
                    fields.push(d);
                    assert(fields@.map_values(|d: Data| d@) =~= before.push(d@));
                },
                Err(e) => return Err(e),
            }
            i = i + 1;
        }
        Ok(DataRow { fields })
    }

    /// The values of this row.
    pub fn into_fields(self) -> (r: Vec<Data>)
        ensures
            r@.map_values(|d: Data| d@) == self@,
    {
        self.fields
    }

    /// The number of values in this row.
    pub fn len(&self) -> (r: usize)
        ensures
            r == self@.len(),
    {
        self.fields.len()
    }

    /// The value at `index`, if the row has that many values.
    pub fn get(&self, index: usize) -> (r: Option<&Data>)
        ensures
            index < self@.len() ==> (r matches Some(d) && d@ == self@[index as int]),
            index >= self@.len() ==> r is None,
    {
        if index < self.fields.len() {
            Some(&self.fields[index])
        } else {
            None
        }
    }
}

/// Decode `(fieldCode, value)` pairs up to a bare NUL byte.
fn decode_field_map<'a>(reader: &mut Reader<'a>) -> (r: Result<HashMap<u8, String>, CodecError>)
    requires
        old(reader).wf(),
    ensures
        match spec_field_map(old(reader).bytes(), old(reader).pos(), Map::empty()) {
            Ok(m) => r matches Ok(x) && strings_of_map(x@) == m,
            Err(e) => r == Err::<HashMap<u8, String>, CodecError>(CodecError::Decode(e)),
        },
{
    let ghost b = reader.bytes();
    let ghost p = reader.pos();
    let mut fields: HashMap<u8, String> = HashMap::new();
    assert(strings_of_map(fields@) =~= Map::<u8, Seq<char>>::empty());
    loop
        invariant
            reader.wf(),
            reader.bytes() == b,
            b == old(reader).bytes(),
            p == old(reader).pos(),
            spec_field_map(b, p, Map::empty()) == spec_field_map(
                b,
                reader.pos(),
                strings_of_map(fields@),
            ),
        decreases b.len() - reader.pos(),
    {
        let ghost at = reader.pos();
        let next = match reader.peek_u8() {
            Ok(v) => v,
            Err(e) => return Err(CodecError::Decode(e)),
        };
        if next == 0 {
            return Ok(fields);
        }
        let code = match reader.read_u8() {
            Ok(v) => v,
            Err(e) => return Err(CodecError::Decode(e)),
        };
        let value = match reader.read_cstring() {
            Ok(v) => v.to_owned(),
            Err(e) => return Err(CodecError::Decode(e)),
        };
        proof {
            crate::util::lemma_nul_index_bounds(b, (at + 1) as nat);
        }
        let ghost before = strings_of_map(fields@);
        fields.insert(code, value);
        assert(strings_of_map(fields@) =~= before.insert(code, value@));
    }
}

impl Authentication {
    /// Decode the body of an authentication request; the reader stands after
    /// the type byte.
    pub fn decode<'a>(reader: Reader<'a>) -> (r: Result<Self, CodecError>)
        requires
            reader.wf(),
        ensures
            decoded(r, spec_authentication(reader.bytes(), reader.pos())),
    {
        let mut cursor = reader;
        let ghost b = cursor.bytes();
        if let Err(e) = cursor.skip(4) {
            return Err(CodecError::Decode(e));
        }
        let kind = match cursor.read_i32() {
            Ok(v) => v,
            Err(e) => return Err(CodecError::Decode(e)),
        };
        let ghost q = cursor.pos();
        if kind == 0 || kind == 3 {
            if let Err(e) = cursor.finish() {
                return Err(CodecError::Decode(e));
            }
            if kind == 0 {
                Ok(Authentication::Success)
            } else {
                Ok(Authentication::CleartextPassword)
            }
        } else if kind == 10 {
            let mut names: Vec<String> = Vec::new();
            assert(names@.map_values(|s: String| s@) =~= Seq::<Seq<char>>::empty());
            loop
                invariant
                    cursor.wf(),
                    cursor.bytes() == b,
                    b == reader.bytes(),
                    reader.pos() + 4 <= b.len(),
                    spec_read_i32(b, reader.pos() + 4) == Ok::<(i32, nat), DecodeError>((kind, q)),
                    kind == 10,
                    spec_cstring_list(b, q, seq![]) == spec_cstring_list(
                        b,
                        cursor.pos(),
                        names@.map_values(|s: String| s@),
                    ),
                decreases b.len() - cursor.pos(),
            {
                let ghost at = cursor.pos();
                let next = match cursor.peek_u8() {
                    Ok(v) => v,
                    Err(e) => return Err(CodecError::Decode(e)),
                };
                if next == 0 {
                    return Ok(Authentication::Sasl(names));
                }
                let name = match cursor.read_cstring() {
                    Ok(v) => v.to_owned(),
                    Err(e) => return Err(CodecError::Decode(e)),
                };
                proof {
                    crate::util::lemma_nul_index_bounds(b, at);
                }
                let ghost before = names@.map_values(|s: String| s@);
                names.push(name);
                assert(names@.map_values(|s: String| s@) =~= before.push(name@));
            }
        } else if kind == 11 {
            match cursor.read_remaining_bytes() {
                Ok(data) => Ok(Authentication::SaslContinue(vstd::slice::slice_to_vec(data))),
                Err(e) => Err(CodecError::Decode(e)),
            }
        } else if kind == 12 {
            match cursor.read_remaining_bytes() {
                Ok(data) => Ok(Authentication::SaslFinal(vstd::slice::slice_to_vec(data))),
                Err(e) => Err(CodecError::Decode(e)),
            }
        } else {
            Err(CodecError::Decode(DecodeError::UnexpectedValue(Unexpected::AuthenticationType(kind))))
        }
    }
}

impl Error {
    /// Decode the body of an error response; the reader stands after the
    /// type byte.
    pub fn decode<'a>(reader: Reader<'a>) -> (r: Result<Self, CodecError>)
        requires
            reader.wf(),
        ensures
            decoded(r, spec_error(reader.bytes(), reader.pos())),
    {
        let mut cursor = reader;
        if let Err(e) = cursor.skip(4) {
            return Err(CodecError::Decode(e));
        }
        match decode_field_map(&mut cursor) {
            Ok(fields) => Ok(Error { fields }),
            Err(e) => Err(e),
        }
    }

    /// The value of the field with the given code (`b'M'` for the message,
    /// `b'C'` for the SQLSTATE code, ...).
    pub fn field(&self, code: u8) -> (r: Option<&String>)
        ensures
            match r {
                Some(s) => self@.contains_key(code) && s@ == self@[code],
                None => !self@.contains_key(code),
            },
    {
        self.fields.get(&code)
    }
}

impl Notice {
    /// Decode the body of a notice response; the reader stands after the
    /// type byte.
    pub fn decode<'a>(reader: Reader<'a>) -> (r: Result<Self, CodecError>)
        requires
            reader.wf(),
        ensures
            decoded(r, spec_error(reader.bytes(), reader.pos())),
    {
        let mut cursor = reader;
        if let Err(e) = cursor.skip(4) {
            return Err(CodecError::Decode(e));
        }
        match decode_field_map(&mut cursor) {
            Ok(fields) => Ok(Notice { fields }),
            Err(e) => Err(e),
        }
    }

    /// The value of the field with the given code.
    pub fn field(&self, code: u8) -> (r: Option<&String>)
        ensures
            match r {
                Some(s) => self@.contains_key(code) && s@ == self@[code],
                None => !self@.contains_key(code),
            },
    {
        self.fields.get(&code)
    }
}

impl ParameterStatus {
    /// Decode the body of a parameter status; the reader stands after the
    /// type byte.
    pub fn decode<'a>(reader: Reader<'a>) -> (r: Result<Self, CodecError>)
        requires
            reader.wf(),
        ensures
            decoded(r, spec_parameter_status(reader.bytes(), reader.pos())),
    {
        let mut cursor = reader;
        if let Err(e) = cursor.skip(4) {
            return Err(CodecError::Decode(e));
        }
        let name = match cursor.read_cstring() {
            Ok(v) => v.to_owned(),
            Err(e) => return Err(CodecError::Decode(e)),
        };
        let value = match cursor.read_cstring() {
            Ok(v) => v.to_owned(),
            Err(e) => return Err(CodecError::Decode(e)),
        };
        Ok(ParameterStatus { name, value })
    }

    /// The name of the parameter.
    pub fn name(&self) -> (r: &str)
        ensures
            r@ == self@.0,
    {
        self.name.as_str()
    }

    /// The new value of the parameter.
    pub fn value(&self) -> (r: &str)
        ensures
            r@ == self@.1,
    {
        self.value.as_str()
    }
}

impl KeyData {
    /// Decode the body of the key data; the reader stands after the type byte.
    pub fn decode<'a>(reader: Reader<'a>) -> (r: Result<Self, CodecError>)
        requires
            reader.wf(),
        ensures
            decoded(r, spec_key_data(reader.bytes(), reader.pos())),
    {
        let mut cursor = reader;
        if let Err(e) = cursor.skip(4) {
            return Err(CodecError::Decode(e));
        }
        let process_id = match cursor.read_i32() {
            Ok(v) => v,
            Err(e) => return Err(CodecError::Decode(e)),
        };
        let secret_key = match cursor.read_i32() {
            Ok(v) => v,
            Err(e) => return Err(CodecError::Decode(e)),
        };
        Ok(KeyData { process_id, secret_key })
    }

    /// The process ID of the server process.
    pub fn process_id(&self) -> (r: i32)
        ensures
            r == self@.0,
    {
        self.process_id
    }

    /// The secret key for cancel requests.
    pub fn secret_key(&self) -> (r: i32)
        ensures
            r == self@.1,
    {
        self.secret_key
    }
}

impl CommandComplete {
    /// Decode the body of a command completion; the reader stands after the
    /// type byte.
    pub fn decode<'a>(reader: Reader<'a>) -> (r: Result<Self, CodecError>)
        requires
            reader.wf(),
        ensures
            decoded(r, spec_command_complete(reader.bytes(), reader.pos())),
    {
        let mut cursor = reader;
        if let Err(e) = cursor.skip(4) {
            return Err(CodecError::Decode(e));
        }
        match cursor.read_cstring() {
            Ok(v) => Ok(CommandComplete { tag: v.to_owned() }),
            Err(e) => Err(CodecError::Decode(e)),
        }
    }

    /// The command tag, such as `SELECT 1`.
    pub fn tag(&self) -> (r: &str)
        ensures
            r@ == self@,
    {
        self.tag.as_str()
    }
}

impl Message {
    /// Decode a whole backend message, type byte first.
    pub fn decode<'a>(reader: Reader<'a>) -> (r: Result<Self, CodecError>)
        requires
            reader.wf(),
        ensures
            decoded(r, spec_message(reader.bytes(), reader.pos())),
    {
        let mut cursor = reader;
        let tag = match cursor.read_u8() {
            Ok(v) => v,
            Err(e) => return Err(CodecError::Decode(e)),
        };
        if tag == TAG_READY_FOR_QUERY {
            Ok(Message::ReadyForQuery)
        } else if tag == TAG_EMPTY_QUERY {
            Ok(Message::EmptyQuery)
        } else if tag == TAG_AUTHENTICATION {
            match Authentication::decode(cursor) {
                Ok(v) => Ok(Message::Authentication(v)),
                Err(e) => Err(e),
            }
        } else if tag == TAG_ERROR {
            match Error::decode(cursor) {
                Ok(v) => Ok(Message::Error(v)),
                Err(e) => Err(e),
            }
        } else if tag == TAG_NOTICE {
            match Notice::decode(cursor) {
                Ok(v) => Ok(Message::Notice(v)),
                Err(e) => Err(e),
            }
        } else if tag == TAG_PARAMETER_STATUS {
            match ParameterStatus::decode(cursor) {
                Ok(v) => Ok(Message::ParameterStatus(v)),
                Err(e) => Err(e),
            }
        } else if tag == TAG_KEY_DATA {
            match KeyData::decode(cursor) {
                Ok(v) => Ok(Message::KeyData(v)),
                Err(e) => Err(e),
            }
        } else if tag == TAG_COMMAND_COMPLETE {
            match CommandComplete::decode(cursor) {
                Ok(v) => Ok(Message::CommandComplete(v)),
                Err(e) => Err(e),
            }
        } else if tag == TAG_ROW_DESCRIPTION {
            match RowDescription::decode(cursor) {
                Ok(v) => Ok(Message::RowDescription(v)),
                Err(e) => Err(e),
            }
        } else if tag == TAG_DATA_ROW {
            match DataRow::decode(cursor) {
                Ok(v) => Ok(Message::DataRow(v)),
                Err(e) => Err(e),
            }
        } else {
            Err(CodecError::Decode(DecodeError::UnexpectedValue(Unexpected::MessageType(tag))))
        }
    }
}

// ---------------------------------------------------------------------------
// Laws of decoding
// ---------------------------------------------------------------------------

/// One value of a data row on the wire: `-1` for `NULL`, else the length and
/// the bytes.
pub open spec fn value_bytes(v: Option<Seq<u8>>) -> Seq<u8> {
    match v {
        None => i32_bytes(-1i32),
        Some(b) => i32_bytes(b.len() as i32) + b,
    }
}

/// The values of a data row on the wire, in order.
pub open spec fn values_bytes(values: Seq<Option<Seq<u8>>>) -> Seq<u8>
    decreases values.len(),
{
    if values.len() == 0 {
        Seq::empty()
    } else {
        value_bytes(values[0]) + values_bytes(values.drop_first())
    }
}

/// A whole data row message carrying `values`.
pub open spec fn data_row_frame(values: Seq<Option<Seq<u8>>>) -> Seq<u8> {
    seq![TAG_DATA_ROW] + i32_bytes((6 + values_bytes(values).len()) as i32) + i16_bytes(
        values.len() as i16,
    ) + values_bytes(values)
}

/// Whether a data row with `values` can be framed: its count fits the
/// 16-bit count field and its length the 32-bit length field.
pub open spec fn data_row_fits(values: Seq<Option<Seq<u8>>>) -> bool {
    &&& values.len() <= i16::MAX
    &&& 6 + values_bytes(values).len() <= i32::MAX
}

proof fn lemma_values_bytes_bound(values: Seq<Option<Seq<u8>>>, i: int)
    requires
        0 <= i < values.len(),
    ensures
        values[i] matches Some(b) ==> 4 + b.len() <= values_bytes(values).len(),
    decreases values.len(),
{
    if i > 0 {
        lemma_values_bytes_bound(values.drop_first(), i - 1);
    }
}

proof fn lemma_data_values(
    b: Seq<u8>,
    p: nat,
    values: Seq<Option<Seq<u8>>>,
    acc: Seq<Option<Seq<u8>>>,
)
    requires
        p + values_bytes(values).len() <= b.len(),
        b.subrange(p as int, (p + values_bytes(values).len()) as int) == values_bytes(values),
        values_bytes(values).len() <= i32::MAX,
    ensures
        spec_data_values(b, p, values.len(), acc) == Ok::<
            (Seq<Option<Seq<u8>>>, nat),
            DecodeError,
        >((acc + values, p + values_bytes(values).len())),
    decreases values.len(),
{
    let all = values_bytes(values);
    if values.len() == 0 {
        assert(acc + values =~= acc);
    } else {
        let v = values[0];
        let rest = values.drop_first();
        let vb = value_bytes(v);
        assert(all == vb + values_bytes(rest));
        lemma_values_bytes_bound(values, 0);
        let n: i32 = match v {
            None => -1i32,
            Some(x) => x.len() as i32,
        };
        lemma_i32_bytes(n);
        assert(b.subrange(p as int, p + 4int) =~= all.subrange(0, 4));
        assert(all.subrange(0, 4) =~= i32_bytes(n).subrange(0, 4));
        crate::util::lemma_i32_at_subrange(b, i32_bytes(n), p as int, 0);
        if let Some(x) = v {
            assert(b.subrange(p + 4int, p + 4int + x.len()) =~= all.subrange(4, 4 + x.len() as int));
            assert(all.subrange(4, 4 + x.len() as int) =~= x);
        }
        assert(spec_data_value(b, p) == Ok::<(Option<Seq<u8>>, nat), DecodeError>(
            (v, p + vb.len()),
        ));
        let q = p + vb.len();
        assert(b.subrange(q as int, (q + values_bytes(rest).len()) as int) =~= all.subrange(
            vb.len() as int,
            all.len() as int,
        ));
        assert(all.subrange(vb.len() as int, all.len() as int) =~= values_bytes(rest));
        lemma_data_values(b, q, rest, acc.push(v));
        assert(acc.push(v) + rest =~= acc + values);
    }
}

/// A data row framed from `values` decodes to exactly those values: as many
/// as were sent, each with its bytes, or `NULL` where `-1` was sent.
pub proof fn lemma_data_row_arity(values: Seq<Option<Seq<u8>>>)
    requires
        data_row_fits(values),
    ensures
        spec_message(data_row_frame(values), 0) == Ok::<MessageModel, DecodeError>(
            MessageModel::DataRow(values),
        ),
{
    let b = data_row_frame(values);
    let body = values_bytes(values);
    let n = values.len() as i16;
    lemma_i16_bytes(n);
    lemma_i32_bytes((6 + body.len()) as i32);
    assert(b[5] == i16_bytes(n)[0]);
    assert(b[6] == i16_bytes(n)[1]);
    assert(b.subrange(7, 7 + body.len() as int) =~= body);
    lemma_data_values(b, 7, values, seq![]);
    assert(seq![] + values =~= values);
}

/// `0` on the wire for an absent optional integer.
pub open spec fn zero_i32(v: Option<i32>) -> i32 {
    match v {
        Some(x) => x,
        None => 0,
    }
}

pub open spec fn zero_i16(v: Option<i16>) -> i16 {
    match v {
        Some(x) => x,
        None => 0,
    }
}

/// The fixed-width part of a field descriptor, after its name.
pub open spec fn field_tail_bytes(f: FieldModel) -> Seq<u8> {
    i32_bytes(zero_i32(f.table_oid)) + i16_bytes(zero_i16(f.attribute_number)) + i32_bytes(
        f.data_type_oid,
    ) + i16_bytes(f.data_type_size) + i32_bytes(f.data_type_modifier) + i16_bytes(
        format_number(f.format_code),
    )
}

/// One field descriptor on the wire.
pub open spec fn field_bytes(f: FieldModel) -> Seq<u8> {
    encode_utf8(f.name) + seq![0u8] + field_tail_bytes(f)
}

/// The field descriptors of a row description on the wire, in order.
pub open spec fn fields_bytes(fields: Seq<FieldModel>) -> Seq<u8>
    decreases fields.len(),
{
    if fields.len() == 0 {
        Seq::empty()
    } else {
        field_bytes(fields[0]) + fields_bytes(fields.drop_first())
    }
}

/// A whole row description message carrying `fields`.
pub open spec fn row_description_frame(fields: Seq<FieldModel>) -> Seq<u8> {
    seq![TAG_ROW_DESCRIPTION] + i32_bytes((6 + fields_bytes(fields).len()) as i32) + i16_bytes(
        fields.len() as i16,
    ) + fields_bytes(fields)
}

/// A field description the wire can carry: its name has no NUL byte, and
/// its optional integers are not `0`, which stands for "none".
pub open spec fn field_sendable(f: FieldModel) -> bool {
    &&& forall|i: int| 0 <= i < encode_utf8(f.name).len() ==> #[trigger] encode_utf8(f.name)[i] != 0
    &&& f.table_oid != Some(0i32)
    &&& f.attribute_number != Some(0i16)
}

/// Whether a row description with `fields` can be framed.
pub open spec fn row_description_fits(fields: Seq<FieldModel>) -> bool {
    &&& fields.len() <= i16::MAX
    &&& 6 + fields_bytes(fields).len() <= i32::MAX
    &&& forall|i: int| 0 <= i < fields.len() ==> field_sendable(#[trigger] fields[i])
}

/// The format code of a field on the wire.
pub open spec fn format_number(code: FormatCode) -> i16 {
    if code == FormatCode::Text {
        0i16
    } else {
        1i16
    }
}

proof fn lemma_field_tail(b: Seq<u8>, q: int, f: FieldModel)
    requires
        0 <= q,
        q + 18 <= b.len(),
        b.subrange(q, q + 18) == field_tail_bytes(f),
    ensures
        i32_at(b, q) == zero_i32(f.table_oid),
        i16_at(b, q + 4) == zero_i16(f.attribute_number),
        i32_at(b, q + 6) == f.data_type_oid,
        i16_at(b, q + 10) == f.data_type_size,
        i32_at(b, q + 12) == f.data_type_modifier,
        i16_at(b, q + 16) == format_number(f.format_code),
{
    let a1 = i32_bytes(zero_i32(f.table_oid));
    let a2 = i16_bytes(zero_i16(f.attribute_number));
    let a3 = i32_bytes(f.data_type_oid);
    let a4 = i16_bytes(f.data_type_size);
    let a5 = i32_bytes(f.data_type_modifier);
    let a6 = i16_bytes(format_number(f.format_code));
    lemma_i32_bytes(zero_i32(f.table_oid));
    lemma_i16_bytes(zero_i16(f.attribute_number));
    lemma_i32_bytes(f.data_type_oid);
    lemma_i16_bytes(f.data_type_size);
    lemma_i32_bytes(f.data_type_modifier);
    lemma_i16_bytes(format_number(f.format_code));
    let t1 = a1 + a2;
    let t2 = t1 + a3;
    let t3 = t2 + a4;
    let t4 = t3 + a5;
    let t = t4 + a6;
    assert(field_tail_bytes(f) == t);
    assert forall|j: int| 0 <= j < 18 implies b[q + j] == t[j] by {
        assert(b.subrange(q, q + 18)[j] == b[q + j]);
    }
    assert forall|j: int| 0 <= j < 16 implies t[j] == t4[j] by {}
    assert forall|j: int| 0 <= j < 12 implies t4[j] == t3[j] by {}
    assert forall|j: int| 0 <= j < 10 implies t3[j] == t2[j] by {}
    assert forall|j: int| 0 <= j < 6 implies t2[j] == t1[j] by {}
    assert(b.subrange(q, q + 4) =~= a1.subrange(0, 4));
    lemma_i32_at_subrange(b, a1, q, 0);
    assert forall|j: int| 0 <= j < 2 implies b[q + 4 + j] == a2[j] by {
        assert(t1[4 + j] == a2[j]);
    }
    assert(b.subrange(q + 4, q + 6) =~= a2.subrange(0, 2));
    lemma_i16_at_subrange(b, a2, q + 4, 0);
    assert forall|j: int| 0 <= j < 4 implies b[q + 6 + j] == a3[j] by {
        assert(t2[6 + j] == a3[j]);
    }
    assert(b.subrange(q + 6, q + 10) =~= a3.subrange(0, 4));
    lemma_i32_at_subrange(b, a3, q + 6, 0);
    assert forall|j: int| 0 <= j < 2 implies b[q + 10 + j] == a4[j] by {
        assert(t3[10 + j] == a4[j]);
    }
    assert(b.subrange(q + 10, q + 12) =~= a4.subrange(0, 2));
    lemma_i16_at_subrange(b, a4, q + 10, 0);
    assert forall|j: int| 0 <= j < 4 implies b[q + 12 + j] == a5[j] by {
        assert(t4[12 + j] == a5[j]);
    }
    assert(b.subrange(q + 12, q + 16) =~= a5.subrange(0, 4));
    lemma_i32_at_subrange(b, a5, q + 12, 0);
    assert forall|j: int| 0 <= j < 2 implies b[q + 16 + j] == a6[j] by {
        assert(t[16 + j] == a6[j]);
    }
    assert(b.subrange(q + 16, q + 18) =~= a6.subrange(0, 2));
    lemma_i16_at_subrange(b, a6, q + 16, 0);
}

proof fn lemma_field_description(b: Seq<u8>, p: nat, f: FieldModel)
    requires
        p + field_bytes(f).len() <= b.len(),
        b.subrange(p as int, (p + field_bytes(f).len()) as int) == field_bytes(f),
        field_sendable(f),
    ensures
        spec_field_description(b, p) == Ok::<(FieldModel, nat), DecodeError>(
            (f, p + field_bytes(f).len()),
        ),
{
    let all = field_bytes(f);
    let e = encode_utf8(f.name);
    let n = e.len() as int;
    let q = p + n + 1;
    let tail = field_tail_bytes(f);
    lemma_i32_bytes(0i32);
    lemma_i16_bytes(0i16);
    assert(tail.len() == 18) by {
        lemma_i32_bytes(zero_i32(f.table_oid));
        lemma_i16_bytes(zero_i16(f.attribute_number));
        lemma_i32_bytes(f.data_type_oid);
        lemma_i16_bytes(f.data_type_size);
        lemma_i32_bytes(f.data_type_modifier);
        lemma_i16_bytes(format_number(f.format_code));
    }
    assert(all == e + seq![0u8] + tail);
    assert forall|k: int| p <= k < p + n implies b[k] != 0 by {
        assert(b[k] == all[k - p]);
        assert(all[k - p] == e[k - p]);
    }
    assert(b[p + n] == all[n]);
    lemma_nul_index_skip(b, p, (p + n) as nat);
    assert(nul_index(b, p) == Some((p + n) as nat));
    assert(b.subrange(p as int, p + n) =~= e);
    encode_utf8_valid_utf8(f.name);
    encode_utf8_decode_utf8(f.name);
    assert(spec_read_cstring(b, p) == Ok::<(Seq<char>, nat), DecodeError>((f.name, q as nat)));
    assert forall|j: int| 0 <= j < 18 implies b[q + j] == tail[j] by {
        assert(b[q + j] == all[n + 1 + j]);
    }
    assert(b.subrange(q, q + 18) =~= tail);
    lemma_field_tail(b, q, f);
}

proof fn lemma_field_descriptions(b: Seq<u8>, p: nat, fields: Seq<FieldModel>, acc: Seq<FieldModel>)
    requires
        p + fields_bytes(fields).len() <= b.len(),
        b.subrange(p as int, (p + fields_bytes(fields).len()) as int) == fields_bytes(fields),
        forall|i: int| 0 <= i < fields.len() ==> field_sendable(#[trigger] fields[i]),
    ensures
        spec_field_descriptions(b, p, fields.len(), acc) == Ok::<
            (Seq<FieldModel>, nat),
            DecodeError,
        >((acc + fields, p + fields_bytes(fields).len())),
    decreases fields.len(),
{
    let all = fields_bytes(fields);
    if fields.len() == 0 {
        assert(acc + fields =~= acc);
    } else {
        let f = fields[0];
        let rest = fields.drop_first();
        let fb = field_bytes(f);
        assert(all == fb + fields_bytes(rest));
        assert(b.subrange(p as int, (p + fb.len()) as int) =~= all.subrange(0, fb.len() as int));
        assert(all.subrange(0, fb.len() as int) =~= fb);
        assert(field_sendable(fields[0]));
        lemma_field_description(b, p, f);
        let q = p + fb.len();
        assert(b.subrange(q as int, (q + fields_bytes(rest).len()) as int) =~= all.subrange(
            fb.len() as int,
            all.len() as int,
        ));
        assert(all.subrange(fb.len() as int, all.len() as int) =~= fields_bytes(rest));
        assert forall|i: int| 0 <= i < rest.len() implies field_sendable(#[trigger] rest[i]) by {
            assert(rest[i] == fields[i + 1]);
        }
        lemma_field_descriptions(b, q, rest, acc.push(f));
        assert(acc.push(f) + rest =~= acc + fields);
    }
}

/// A row description framed from `fields` decodes to exactly those
/// fields: as many as were sent, in order, each with its name, integers
/// and format.
pub proof fn lemma_row_description_arity(fields: Seq<FieldModel>)
    requires
        row_description_fits(fields),
    ensures
        spec_message(row_description_frame(fields), 0) == Ok::<MessageModel, DecodeError>(
            MessageModel::RowDescription(fields),
        ),
{
    let b = row_description_frame(fields);
    let body = fields_bytes(fields);
    let n = fields.len() as i16;
    lemma_i16_bytes(n);
    lemma_i32_bytes((6 + body.len()) as i32);
    assert(b[5] == i16_bytes(n)[0]);
    assert(b[6] == i16_bytes(n)[1]);
    assert(b.subrange(7, 7 + body.len() as int) =~= body);
    lemma_field_descriptions(b, 7, fields, seq![]);
    assert(seq![] + fields =~= fields);
}

/// A row description or data row whose count field is negative decodes to
/// an error that names the count.
pub proof fn lemma_negative_count_rejected(b: Seq<u8>)
    requires
        b.len() >= 7,
        b[0] == TAG_ROW_DESCRIPTION || b[0] == TAG_DATA_ROW,
        i16_at(b, 5) < 0,
    ensures
        spec_message(b, 0) == Err::<MessageModel, DecodeError>(
            DecodeError::UnexpectedValue(Unexpected::FieldCount(i16_at(b, 5))),
        ),
{
}

/// A message with a type byte no rule knows (here `'X'`) decodes to an
/// error that names the byte.
pub proof fn lemma_unknown_tag_rejected(b: Seq<u8>)
    requires
        b.len() >= 1,
        b[0] == 0x58,
    ensures
        spec_message(b, 0) == Err::<MessageModel, DecodeError>(
            DecodeError::UnexpectedValue(Unexpected::MessageType(0x58)),
        ),
{
}

} // verus!
