//! The protocol logic of a connection: the decisions taken on each message
//! from the server, and the rows of a query result.
//!
//! [`ConnectionState`] holds no transport. Whoever owns the byte stream sends
//! what [`ConnectionState::begin_query`] returns, reads one message frame at
//! a time (see [`frame_body_length`]), and hands each frame to
//! [`ConnectionState::receive`], which says what happened.

use std::collections::VecDeque;
use std::sync::Arc;
use vstd::prelude::*;

use crate::protocol::message::client::{self, cstr, query_bytes, MAX_MESSAGE_LENGTH};
use crate::protocol::message::parsing::{all_digits, digits_value, unsigned_part, FromSql, ParseError};
use crate::protocol::message::server::{
    first_index_of, lemma_unknown_tag_rejected, spec_message, AuthenticationModel, Data, DataRow, FieldModel, FormatCode, KeyData, Message,
    MessageModel, RowDescription,
};
use crate::util::{i32_at, CodecError, DecodeError, EncodeError, Reader, Unexpected};
use crate::Error;

verus! {

/// Errors in the order of well-formed messages.
#[derive(Debug, Clone, Copy, PartialEq, Eq, Structural)]
pub enum ProtocolError {
    /// Data rows arrived without a row description.
    MissingRowDescription,
    /// A second row description arrived for one query.
    DuplicateRowDescription,
    /// A query was started while the connection was not ready for one.
    NotReady,
    /// The connection failed earlier and cannot be used any more.
    Closed,
}

/// Attempted and failed to access a field of a row because it doesn't exist.
#[derive(Debug, Clone, PartialEq, Eq, Hash)]
pub struct FieldNotFound(String);

impl View for FieldNotFound {
    type V = Seq<char>;

    closed spec fn view(&self) -> Seq<char> {
        self.0@
    }
}

impl FieldNotFound {
    /// The name of the field that was asked for.
    pub fn name(&self) -> (r: &str)
        ensures
            r@ == self@,
    {
        self.0.as_str()
    }
}

/// Why a field of a row could not be read as a value.
#[derive(Debug, Clone, PartialEq, Eq)]
pub enum RowError {
    /// The row has no field of that name.
    FieldNotFound(FieldNotFound),
    /// The field's value does not parse to the type asked for.
    Parse(ParseError),
}

/// A row in a result set.
#[derive(Debug, Clone, PartialEq, Eq, Hash)]
pub struct Row {
    /// The reference to the metadata of this row, shared by all rows of one
    /// result set.
    metadata: Arc<RowDescription>,
    /// The fields in this row.
    fields: Vec<Data>,
}

/// A row as the column descriptions and the values.
pub type RowModel = (Seq<FieldModel>, Seq<Option<Seq<u8>>>);

impl View for Row {
    type V = RowModel;

    closed spec fn view(&self) -> RowModel {
        (self.metadata@, self.fields@.map_values(|d: Data| d@))
    }
}

/// The format and the value of the first field named `name`, if the row has
/// one.
pub open spec fn lookup(row: RowModel, name: Seq<char>) -> Option<(FormatCode, Option<Seq<u8>>)> {
    match first_index_of(row.0, name) {
        Some(i) => if i < row.1.len() {
            Some((row.0[i as int].format_code, row.1[i as int]))
        } else {
            None
        },
        None => None,
    }
}

/// What a value in the given format parses to as a `T`.
pub open spec fn parsed<T: FromSql>(format: FormatCode, value: Option<Seq<u8>>) -> Result<
    T::V,
    ParseError,
> {
    match value {
        None => Err(ParseError::Null),
        Some(bytes) => match format {
            FormatCode::Text => T::text_value(bytes),
            FormatCode::Binary => T::binary_value(bytes),
        },
    }
}

impl Data {
    /// Parse a value from text.
    pub(crate) fn parse_text<T: FromSql>(&self) -> (r: Result<T, ParseError>)
        ensures
            match parsed::<T>(FormatCode::Text, self@) {
                Ok(v) => r matches Ok(x) && x@ == v,
                Err(e) => r == Err::<T, ParseError>(e),
            },
    {
        match self.bytes() {
            Some(bytes) => T::from_text(bytes),
            None => Err(ParseError::Null),
        }
    }

    /// Parse a value from binary.
    pub(crate) fn parse_binary<T: FromSql>(&self) -> (r: Result<T, ParseError>)
        ensures
            match parsed::<T>(FormatCode::Binary, self@) {
                Ok(v) => r matches Ok(x) && x@ == v,
                Err(e) => r == Err::<T, ParseError>(e),
            },
    {
        match self.bytes() {
            Some(bytes) => T::from_binary(bytes),
            None => Err(ParseError::Null),
        }
    }
}

impl Row {
    /// Get the value of a field by its name; the first field of that name
    /// wins.
    pub fn get(&self, name: &str) -> (r: Option<&Data>)
        ensures
            match lookup(self@, name@) {
                Some((_, v)) => r matches Some(d) && d@ == v,
                None => r is None,
            },
    {
        match self.metadata.field_index(name) {
            Some(index) => if index < self.fields.len() {
                assert(self@.1[index as int] == self.fields@[index as int]@);
                Some(&self.fields[index])
            } else {
                None
            },
            None => None,
        }
    }

    /// Get the value of a field and parse it to a specific type, from text or
    /// binary as the field's format code says.
    pub fn get_and_parse<T: FromSql>(&self, name: &str) -> (r: Result<T, RowError>)
        ensures
            match lookup(self@, name@) {
                None => r matches Err(RowError::FieldNotFound(f)) && f@ == name@,
                Some((format, value)) => match parsed::<T>(format, value) {
                    Ok(v) => r matches Ok(x) && x@ == v,
                    Err(e) => r == Err::<T, RowError>(RowError::Parse(e)),
                },
            },
    {
        let index = match self.metadata.field_index(name) {
            Some(index) => index,
            None => return Err(RowError::FieldNotFound(FieldNotFound(name.to_owned()))),
        };
        if index >= self.fields.len() {
            return Err(RowError::FieldNotFound(FieldNotFound(name.to_owned())));
        }
        let data = &self.fields[index];
        assert(self@.1[index as int] == data@);
        assert(self@.0[index as int] == self.metadata.fields@[index as int]@);
        let parsed = match self.metadata.fields[index].format_code {
            FormatCode::Binary => data.parse_binary(),
            FormatCode::Text => data.parse_text(),
        };
        match parsed {
            Ok(v) => Ok(v),
            Err(e) => Err(RowError::Parse(e)),
        }
    }
}

// ---------------------------------------------------------------------------
// Framing
// ---------------------------------------------------------------------------

/// The number of bytes of a header: the type byte and the length field.
pub const HEADER_LENGTH: usize = 5;

/// The number of body bytes to read after a message header, from the length
/// field, which counts itself but not the type byte.
pub open spec fn spec_body_length(header: Seq<u8>) -> Result<nat, DecodeError> {
    if header.len() < HEADER_LENGTH {
        Err(DecodeError::UnexpectedEof)
    } else if i32_at(header, 1) < 4 {
        Err(DecodeError::UnexpectedValue(Unexpected::MessageLength(i32_at(header, 1))))
    } else {
        Ok((i32_at(header, 1) - 4) as nat)
    }
}

/// Read the header of a message (type byte and length) and return how many
/// more bytes its body has; a declared length below four is rejected.
pub fn frame_body_length(header: &[u8]) -> (r: Result<usize, CodecError>)
    ensures
        match spec_body_length(header@) {
            Ok(n) => r == Ok::<usize, CodecError>(n as usize),
            Err(e) => r == Err::<usize, CodecError>(CodecError::Decode(e)),
        },
{
    let mut reader = Reader::new(header);
    if let Err(e) = reader.skip(1) {
        return Err(CodecError::Decode(e));
    }
    let length = match reader.read_i32() {
        Ok(v) => v,
        Err(e) => return Err(CodecError::Decode(e)),
    };
    if length < 4 {
        return Err(CodecError::Decode(DecodeError::UnexpectedValue(Unexpected::MessageLength(length))));
    }
    Ok((length - 4) as usize)
}

// ---------------------------------------------------------------------------
// The connection's state machine
// ---------------------------------------------------------------------------

/// Where a connection stands in its conversation with the server.
#[derive(Debug, Clone, Copy, PartialEq, Eq, Structural)]
pub enum Phase {
    /// The startup message is sent; waiting for the server to be ready.
    Handshaking,
    /// Ready for a query.
    Ready,
    /// A query is sent; waiting for its result.
    QueryInFlight,
    /// A fatal error occurred; the connection must not be used again.
    Closed,
}

/// What a message from the server led to.
pub enum Event {
    /// Nothing yet; more messages are expected.
    Pending,
    /// The handshake is complete: the connection is ready for queries.
    Ready,
    /// The query completed with these rows.
    Rows(Vec<Row>),
}

/// The state of a connection, apart from its transport.
pub struct ConnectionState {
    phase: Phase,
    /// Messages that arrived but were not acted on, in arrival order.
    response_buffer: VecDeque<Message>,
    /// The key data from the backend we need to cancel queries.
    key_data: Option<KeyData>,
    /// The row description of the query in flight, once it arrived.
    row_description: Option<RowDescription>,
    /// The data rows of the query in flight, in arrival order.
    data_rows: VecDeque<DataRow>,
}

/// What a [`ConnectionState`] holds.
pub struct StateModel {
    pub phase: Phase,
    pub buffered: Seq<MessageModel>,
    pub key_data: Option<(i32, i32)>,
    pub description: Option<Seq<FieldModel>>,
    pub rows: Seq<Seq<Option<Seq<u8>>>>,
}

/// An error, as the state machine sees it.
pub enum ErrorModel {
    Codec(CodecError),
    Network,
    Protocol(ProtocolError),
    Server(Map<u8, Seq<char>>),
}

/// What a call of [`ConnectionState::receive`] returned.
pub enum OutcomeModel {
    Pending,
    Ready,
    Rows(Seq<RowModel>),
    Failed(ErrorModel),
}

impl View for ConnectionState {
    type V = StateModel;

    closed spec fn view(&self) -> StateModel {
        StateModel {
            phase: self.phase,
            buffered: self.response_buffer@.map_values(|m: Message| m@),
            key_data: match self.key_data {
                Some(k) => Some(k@),
                None => None,
            },
            description: match self.row_description {
                Some(d) => Some(d@),
                None => None,
            },
            rows: self.data_rows@.map_values(|r: DataRow| r@),
        }
    }
}

pub open spec fn error_model(e: Error) -> ErrorModel {
    match e {
        Error::CodecError(c) => ErrorModel::Codec(c),
        Error::NetworkError(_) => ErrorModel::Network,
        Error::ProtocolError(p) => ErrorModel::Protocol(p),
        Error::ServerError(s) => ErrorModel::Server(s@),
    }
}

pub open spec fn outcome_model(r: Result<Event, Error>) -> OutcomeModel {
    match r {
        Ok(Event::Pending) => OutcomeModel::Pending,
        Ok(Event::Ready) => OutcomeModel::Ready,
        Ok(Event::Rows(rows)) => OutcomeModel::Rows(rows@.map_values(|row: Row| row@)),
        Err(e) => OutcomeModel::Failed(error_model(e)),
    }
}

/// The state of a connection whose startup message was just sent.
pub open spec fn initial_state() -> StateModel {
    StateModel {
        phase: Phase::Handshaking,
        buffered: Seq::empty(),
        key_data: None,
        description: None,
        rows: Seq::empty(),
    }
}

/// The state after a fatal error: closed, nothing else changed.
pub open spec fn closed(s: StateModel) -> StateModel {
    StateModel { phase: Phase::Closed, ..s }
}

/// The state with one more message buffered.
pub open spec fn buffer(s: StateModel, m: MessageModel) -> StateModel {
    StateModel { buffered: s.buffered.push(m), ..s }
}

/// The rows of a completed query: each data row with the description.
pub open spec fn result_rows(description: Seq<FieldModel>, rows: Seq<Seq<Option<Seq<u8>>>>) -> Seq<
    RowModel,
> {
    rows.map_values(|r: Seq<Option<Seq<u8>>>| (description, r))
}

/// The end of a query: its rows, or an error for data rows without a
/// description; either way nothing of the query is kept.
pub open spec fn complete(s: StateModel) -> (StateModel, OutcomeModel) {
    let done = StateModel { description: None, rows: Seq::empty(), ..s };
    match s.description {
        Some(d) => (
            StateModel { phase: Phase::Ready, ..done },
            OutcomeModel::Rows(result_rows(d, s.rows)),
        ),
        None => if s.rows.len() == 0 {
            (StateModel { phase: Phase::Ready, ..done }, OutcomeModel::Rows(Seq::empty()))
        } else {
            (
                StateModel { phase: Phase::Closed, ..done },
                OutcomeModel::Failed(ErrorModel::Protocol(ProtocolError::MissingRowDescription)),
            )
        },
    }
}

/// The decision taken on one decoded message (or decoding error) `m` in
/// state `s`: the next state and the outcome.
pub open spec fn step(s: StateModel, m: Result<MessageModel, DecodeError>) -> (
    StateModel,
    OutcomeModel,
) {
    if s.phase == Phase::Closed {
        (s, OutcomeModel::Failed(ErrorModel::Protocol(ProtocolError::Closed)))
    } else {
        match m {
            Err(e) => (closed(s), OutcomeModel::Failed(ErrorModel::Codec(CodecError::Decode(e)))),
            Ok(m) => match s.phase {
                Phase::Handshaking => match m {
                    MessageModel::ReadyForQuery => (
                        StateModel { phase: Phase::Ready, ..s },
                        OutcomeModel::Ready,
                    ),
                    MessageModel::Error(fields) => (
                        closed(s),
                        OutcomeModel::Failed(ErrorModel::Server(fields)),
                    ),
                    MessageModel::KeyData(p, k) => (
                        StateModel { key_data: Some((p, k)), ..buffer(s, m) },
                        OutcomeModel::Pending,
                    ),
                    _ => (buffer(s, m), OutcomeModel::Pending),
                },
                Phase::QueryInFlight => match m {
                    MessageModel::CommandComplete(_) => complete(s),
                    MessageModel::RowDescription(d) => if s.description is Some {
                        (
                            closed(s),
                            OutcomeModel::Failed(
                                ErrorModel::Protocol(ProtocolError::DuplicateRowDescription),
                            ),
                        )
                    } else {
                        (StateModel { description: Some(d), ..s }, OutcomeModel::Pending)
                    },
                    MessageModel::DataRow(v) => (
                        StateModel { rows: s.rows.push(v), ..s },
                        OutcomeModel::Pending,
                    ),
                    MessageModel::Error(fields) => (
                        closed(s),
                        OutcomeModel::Failed(ErrorModel::Server(fields)),
                    ),
                    _ => (buffer(s, m), OutcomeModel::Pending),
                },
                _ => (buffer(s, m), OutcomeModel::Pending),
            },
        }
    }
}

impl ConnectionState {
    /// The state of a connection whose startup message was just sent.
    pub fn new() -> (r: Self)
        ensures
            r@ == initial_state(),
    {
        let r = ConnectionState {
            phase: Phase::Handshaking,
            response_buffer: VecDeque::new(),
            key_data: None,
            row_description: None,
            data_rows: VecDeque::new(),
        };
        assert(r@.buffered =~= Seq::<MessageModel>::empty());
        assert(r@.rows =~= Seq::<Seq<Option<Seq<u8>>>>::empty());
        r
    }

    /// Where the connection stands.
    pub fn phase(&self) -> (r: Phase)
        ensures
            r == self@.phase,
    {
        self.phase
    }

    /// Whether a query can be sent now.
    pub fn is_ready(&self) -> (r: bool)
        ensures
            r == (self@.phase == Phase::Ready),
    {
        self.phase == Phase::Ready
    }

    /// The key data the server sent during the handshake, if any.
    pub fn key_data(&self) -> (r: Option<KeyData>)
        ensures
            match r {
                Some(k) => self@.key_data == Some(k@),
                None => self@.key_data is None,
            },
    {
        self.key_data
    }

    /// The number of messages buffered and not yet taken.
    pub fn buffered_len(&self) -> (r: usize)
        ensures
            r == self@.buffered.len(),
    {
        self.response_buffer.len()
    }

    /// Take the oldest buffered message.
    pub fn pop_buffered(&mut self) -> (r: Option<Message>)
        ensures
            old(self)@.buffered.len() == 0 ==> r is None && final(self)@ == old(self)@,
            old(self)@.buffered.len() > 0 ==> {
                &&& r matches Some(m) && m@ == old(self)@.buffered[0]
                &&& final(self)@ == StateModel {
                    buffered: old(self)@.buffered.drop_first(),
                    ..old(self)@
                }
            },
    {
        let r = self.response_buffer.pop_front();
        proof {
            if old(self)@.buffered.len() > 0 {
                assert(self@.buffered =~= old(self)@.buffered.drop_first());
            }
        }
        r
    }

    /// Start a query: the bytes of the simple query message to send.
    /// It fails if the connection is not ready, or if the query is too long
    /// for a message.
    pub fn begin_query(&mut self, query: &str) -> (r: Result<Vec<u8>, Error>)
        ensures
            old(self)@.phase != Phase::Ready ==> {
                &&& r matches Err(e) && error_model(e) == ErrorModel::Protocol(ProtocolError::NotReady)
                &&& final(self)@ == old(self)@
            },
            old(self)@.phase == Phase::Ready && cstr(query@).len() + 4 > MAX_MESSAGE_LENGTH ==> {
                &&& r matches Err(e) && error_model(e) == ErrorModel::Codec(
                    CodecError::Encode(EncodeError::MessageTooLong),
                )
                &&& final(self)@ == old(self)@
            },
            old(self)@.phase == Phase::Ready && cstr(query@).len() + 4 <= MAX_MESSAGE_LENGTH ==> {
                &&& r matches Ok(bytes) && bytes@ == query_bytes(query@)
                &&& final(self)@ == StateModel { phase: Phase::QueryInFlight, ..old(self)@ }
            },
    {
        if self.phase != Phase::Ready {
            return Err(Error::ProtocolError(ProtocolError::NotReady));
        }
        let message = client::Query::new(query.to_owned());
        match message.encode() {
            Ok(bytes) => {
                self.phase = Phase::QueryInFlight;
                Ok(bytes)
            },
            Err(e) => Err(Error::CodecError(CodecError::Encode(e))),
        }
    }

    /// Act on one message frame from the server (type byte, length, body):
    /// decode it, and take the step the protocol asks for.
    pub fn receive(&mut self, frame: &[u8]) -> (r: Result<Event, Error>)
        ensures
            (final(self)@, outcome_model(r)) == step(old(self)@, spec_message(frame@, 0)),
    {
        if self.phase == Phase::Closed {
            return Err(Error::ProtocolError(ProtocolError::Closed));
        }
        let message = match Message::decode(Reader::new(frame)) {
            Ok(m) => m,
            Err(e) => {
                self.phase = Phase::Closed;
                return Err(Error::CodecError(e));
            },
        };
        match self.phase {
            Phase::Handshaking => self.handshake_step(message),
            Phase::QueryInFlight => self.query_step(message),
            _ => {
                self.push_buffered(message);
                Ok(Event::Pending)
            },
        }
    }

    fn push_buffered(&mut self, message: Message)
        ensures
            final(self)@ == buffer(old(self)@, message@),
    {
        let ghost m = message@;
        self.response_buffer.push_back(message);
        assert(self@.buffered =~= old(self)@.buffered.push(m));
    }

    fn handshake_step(&mut self, message: Message) -> (r: Result<Event, Error>)
        requires
            old(self)@.phase == Phase::Handshaking,
        ensures
            (final(self)@, outcome_model(r)) == step(
                old(self)@,
                Ok::<MessageModel, DecodeError>(message@),
            ),
    {
        match message {
            Message::ReadyForQuery => {
                self.phase = Phase::Ready;
                Ok(Event::Ready)
            },
            Message::Error(error) => {
                self.phase = Phase::Closed;
                Err(Error::ServerError(error))
            },
            Message::KeyData(key) => {
                self.key_data = Some(key);
                self.push_buffered(Message::KeyData(key));
                Ok(Event::Pending)
            },
            other => {
                self.push_buffered(other);
                Ok(Event::Pending)
            },
        }
    }

    fn query_step(&mut self, message: Message) -> (r: Result<Event, Error>)
        requires
            old(self)@.phase == Phase::QueryInFlight,
        ensures
            (final(self)@, outcome_model(r)) == step(
                old(self)@,
                Ok::<MessageModel, DecodeError>(message@),
            ),
    {
        match message {
            Message::CommandComplete(_) => self.complete_query(),
            Message::RowDescription(description) => {
                if self.row_description.is_some() {
                    self.phase = Phase::Closed;
                    return Err(Error::ProtocolError(ProtocolError::DuplicateRowDescription));
                }
                self.row_description = Some(description);
                Ok(Event::Pending)
            },
            Message::DataRow(row) => {
                let ghost v = row@;
                self.data_rows.push_back(row);
                assert(self@.rows =~= old(self)@.rows.push(v));
                Ok(Event::Pending)
            },
            Message::Error(error) => {
                self.phase = Phase::Closed;
                Err(Error::ServerError(error))
            },
            other => {
                self.push_buffered(other);
                Ok(Event::Pending)
            },
        }
    }

    fn complete_query(&mut self) -> (r: Result<Event, Error>)
        ensures
            (final(self)@, outcome_model(r)) == complete(old(self)@),
    {
        let description = self.row_description.take();
        let mut data_rows: VecDeque<DataRow> = VecDeque::new();
        std::mem::swap(&mut data_rows, &mut self.data_rows);
        assert(self@.rows =~= Seq::<Seq<Option<Seq<u8>>>>::empty());
        let description = match description {
            Some(d) => d,
            None => {
                if data_rows.len() == 0 {
                    self.phase = Phase::Ready;
                    let rows: Vec<Row> = Vec::new();
                    assert(rows@.map_values(|row: Row| row@) =~= Seq::<RowModel>::empty());
                    return Ok(Event::Rows(rows));
                }
                self.phase = Phase::Closed;
                return Err(Error::ProtocolError(ProtocolError::MissingRowDescription));
            },
        };
        self.phase = Phase::Ready;
        let ghost d = description@;
        let ghost all = data_rows@.map_values(|r: DataRow| r@);
        let metadata = Arc::new(description);
        let mut rows: Vec<Row> = Vec::new();
        let total = data_rows.len();
        let mut taken: usize = 0;
        while data_rows.len() > 0
            invariant
                metadata@ == d,
                all.len() == total,
                taken + data_rows@.len() == all.len(),
                data_rows@.map_values(|r: DataRow| r@) == all.subrange(taken as int, all.len() as int),
                rows@.map_values(|row: Row| row@) == result_rows(d, all.take(taken as int)),
            decreases data_rows@.len(),
        {
            let ghost before = rows@.map_values(|row: Row| row@);
            let ghost rest = data_rows@;
            let ghost rest_v = rest.map_values(|r: DataRow| r@);
            assert(rest_v[0] == all[taken as int]);
            let data_row = data_rows.pop_front().unwrap();
            assert(data_row@ == rest_v[0]);
            assert(data_rows@.map_values(|r: DataRow| r@) =~= rest_v.drop_first());
            assert(rest_v.drop_first() =~= all.subrange(taken + 1, all.len() as int));
            let row = Row { metadata: metadata.clone(), fields: data_row.into_fields() };
            rows.push(row);
            assert(rows@.map_values(|row: Row| row@) =~= before.push((d, all[taken as int])));
            assert(result_rows(d, all.take(taken + 1)) =~= result_rows(d, all.take(taken as int)).push(
                (d, all[taken as int]),
            ));
            taken = taken + 1;
        }
        assert(all.take(taken as int) =~= all);
        Ok(Event::Rows(rows))
    }
}

/// A frame whose type byte no rule knows (here `'X'`) is fatal: the
/// connection closes and reports the decoding error, whatever it was doing.
pub proof fn lemma_unknown_tag_is_fatal(s: StateModel, frame: Seq<u8>)
    requires
        frame.len() >= 1,
        frame[0] == 0x58,
        s.phase != Phase::Closed,
    ensures
        step(s, spec_message(frame, 0)) == (
            closed(s),
            OutcomeModel::Failed(
                ErrorModel::Codec(
                    CodecError::Decode(DecodeError::UnexpectedValue(Unexpected::MessageType(0x58))),
                ),
            ),
        ),
{
    lemma_unknown_tag_rejected(frame);
}

/// The response buffer only grows at its end: no step reorders or drops a
/// buffered message; only [`ConnectionState::pop_buffered`] takes one out.
pub proof fn lemma_buffer_append_only(s: StateModel, m: Result<MessageModel, DecodeError>)
    ensures
        step(s, m).0.buffered == s.buffered || (m matches Ok(x) && step(s, m).0.buffered
            == s.buffered.push(x)),
{
}

/// The state after the messages `ms` arrived one after another, each
/// decoded without error.
pub open spec fn run(s: StateModel, ms: Seq<MessageModel>) -> StateModel
    decreases ms.len(),
{
    if ms.len() == 0 {
        s
    } else {
        run(step(s, Ok(ms[0])).0, ms.drop_first())
    }
}

/// During the handshake, messages other than ready-for-query and error
/// keep the connection handshaking and leave the query state untouched.
pub proof fn lemma_handshake_run(s: StateModel, ms: Seq<MessageModel>)
    requires
        s.phase == Phase::Handshaking,
        forall|i: int|
            0 <= i < ms.len() ==> !(#[trigger] ms[i] is ReadyForQuery) && !(ms[i] is Error),
    ensures
        run(s, ms).phase == Phase::Handshaking,
        run(s, ms).description == s.description,
        run(s, ms).rows == s.rows,
    decreases ms.len(),
{
    if ms.len() > 0 {
        let rest = ms.drop_first();
        assert forall|i: int| 0 <= i < rest.len() implies !(#[trigger] rest[i] is ReadyForQuery)
            && !(rest[i] is Error) by {
            assert(rest[i] == ms[i + 1]);
        }
        assert(!(ms[0] is ReadyForQuery) && !(ms[0] is Error));
        lemma_handshake_run(step(s, Ok(ms[0])).0, rest);
    }
}

/// The whole `SELECT 1` conversation: after the authentication, any
/// parameter statuses and the key data, ready-for-query makes the
/// connection ready; a query answered by a one-column row description, the
/// data row `1` and a command completion then yields one row whose
/// `?column?` parses to the integer `1`.
pub proof fn lemma_select_one(
    statuses: Seq<(Seq<char>, Seq<char>)>,
    process_id: i32,
    secret_key: i32,
    column: FieldModel,
    tag: Seq<char>,
)
    requires
        column.name == "?column?"@,
        column.format_code == FormatCode::Text,
    ensures
        ({
            let handshake = seq![MessageModel::Authentication(AuthenticationModel::Success)]
                + statuses.map_values(
                |p: (Seq<char>, Seq<char>)| MessageModel::ParameterStatus(p.0, p.1),
            ) + seq![MessageModel::KeyData(process_id, secret_key)];
            let (ready, event) = step(
                run(initial_state(), handshake),
                Ok(MessageModel::ReadyForQuery),
            );
            let sent = StateModel { phase: Phase::QueryInFlight, ..ready };
            let answered = run(
                sent,
                seq![
                    MessageModel::RowDescription(seq![column]),
                    MessageModel::DataRow(seq![Some(seq![0x31u8])]),
                ],
            );
            let (done, result) = step(answered, Ok(MessageModel::CommandComplete(tag)));
            &&& event == OutcomeModel::Ready
            &&& ready.phase == Phase::Ready
            &&& ready.key_data == Some((process_id, secret_key))
            &&& done.phase == Phase::Ready
            &&& result == OutcomeModel::Rows(seq![(seq![column], seq![Some(seq![0x31u8])])])
            &&& lookup((seq![column], seq![Some(seq![0x31u8])]), "?column?"@) == Some(
                (FormatCode::Text, Some(seq![0x31u8])),
            )
            &&& parsed::<i32>(FormatCode::Text, Some(seq![0x31u8])) == Ok::<i32, ParseError>(1)
        }),
{
    let handshake = seq![MessageModel::Authentication(AuthenticationModel::Success)]
        + statuses.map_values(|p: (Seq<char>, Seq<char>)| MessageModel::ParameterStatus(p.0, p.1))
        + seq![MessageModel::KeyData(process_id, secret_key)];
    let n = handshake.len();
    assert forall|i: int| 0 <= i < n implies !(#[trigger] handshake[i] is ReadyForQuery) && !(
    handshake[i] is Error) by {
        if 1 <= i < n - 1 {
            assert(handshake[i] == MessageModel::ParameterStatus(
                statuses[i - 1].0,
                statuses[i - 1].1,
            ));
        }
    }
    lemma_handshake_run(initial_state(), handshake);
    lemma_run_key_data(initial_state(), handshake, process_id, secret_key);
    let ready = step(run(initial_state(), handshake), Ok(MessageModel::ReadyForQuery)).0;
    let sent = StateModel { phase: Phase::QueryInFlight, ..ready };
    let m1 = MessageModel::RowDescription(seq![column]);
    let m2 = MessageModel::DataRow(seq![Some(seq![0x31u8])]);
    let s1 = step(sent, Ok(m1)).0;
    let s2 = step(s1, Ok(m2)).0;
    assert(seq![m1, m2].drop_first() =~= seq![m2]);
    assert(seq![m2].drop_first() =~= Seq::<MessageModel>::empty());
    assert(run(sent, seq![m1, m2]) == run(s1, seq![m2]));
    assert(run(s1, seq![m2]) == run(s2, Seq::<MessageModel>::empty()));
    assert(s2.rows =~= seq![seq![Some(seq![0x31u8])]]);
    assert(result_rows(seq![column], s2.rows) =~= seq![(seq![column], seq![Some(seq![0x31u8])])]);
    reveal_strlit("?column?");
    assert(first_index_of(seq![column], "?column?"@) == Some(0nat));
    let digits = seq![0x31u8];
    assert(unsigned_part(digits) == digits);
    assert(digits.drop_last() =~= Seq::<u8>::empty());
    assert(digits_value(Seq::<u8>::empty()) == 0);
    assert(digits_value(digits) == 1);
    assert(all_digits(digits));
}

/// The last key data of the handshake is the one kept.
proof fn lemma_run_key_data(s: StateModel, ms: Seq<MessageModel>, process_id: i32, secret_key: i32)
    requires
        s.phase == Phase::Handshaking,
        ms.len() > 0,
        ms.last() == MessageModel::KeyData(process_id, secret_key),
        forall|i: int|
            0 <= i < ms.len() ==> !(#[trigger] ms[i] is ReadyForQuery) && !(ms[i] is Error),
    ensures
        run(s, ms).key_data == Some((process_id, secret_key)),
    decreases ms.len(),
{
    let rest = ms.drop_first();
    let next = step(s, Ok(ms[0])).0;
    assert(!(ms[0] is ReadyForQuery) && !(ms[0] is Error));
    if ms.len() == 1 {
        assert(rest.len() == 0);
        assert(ms[0] == ms.last());
        assert(run(s, ms) == run(next, rest));
    } else {
        assert(rest.last() == ms.last());
        assert forall|i: int| 0 <= i < rest.len() implies !(#[trigger] rest[i] is ReadyForQuery)
            && !(rest[i] is Error) by {
            assert(rest[i] == ms[i + 1]);
        }
        lemma_run_key_data(next, rest, process_id, secret_key);
    }
}

} // verus!
