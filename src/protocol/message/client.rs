//! Client-to-server messages.

use vstd::prelude::*;
use vstd::utf8::*;

use crate::util::{i32_bytes, lemma_i32_bytes, spec_read_i32, DecodeError, EncodeError, Writer};
use crate::PROTOCOL_VERSION;

verus! {

/// The type of client-to-server messages.
pub enum MessageType {
    /// The startup message sent by the client.
    Startup,
    /// A message initiating a simple query.
    SimpleQuery,
}

impl MessageType {
    /// The type byte that starts a message of this type; the startup message
    /// has none, for historical reasons.
    pub fn type_byte(&self) -> (r: Option<u8>)
        ensures
            r == match self {
                MessageType::Startup => None,
                MessageType::SimpleQuery => Some(TAG_QUERY),
            },
    {
        match self {
            MessageType::Startup => None,
            MessageType::SimpleQuery => Some(TAG_QUERY),
        }
    }
}

/// The type byte of a simple query (`'Q'`).
pub const TAG_QUERY: u8 = 0x51;

/// The largest length a message's 32-bit length field can hold.
pub const MAX_MESSAGE_LENGTH: usize = 0x7fff_ffff;

/// The startup message sent by the client.
pub struct Startup {
    /// The user name to connect as.
    user: String,
    /// Other, optional parameters, in the order they are sent; each key
    /// occurs once.
    options: Vec<(String, String)>,
}

/// A simple query message.
pub struct Query {
    /// The query to send to the server.
    query: String,
}

impl View for Startup {
    type V = (Seq<char>, Seq<(Seq<char>, Seq<char>)>);

    closed spec fn view(&self) -> (Seq<char>, Seq<(Seq<char>, Seq<char>)>) {
        (self.user@, self.options@.map_values(|o: (String, String)| (o.0@, o.1@)))
    }
}

impl View for Query {
    type V = Seq<char>;

    closed spec fn view(&self) -> Seq<char> {
        self.query@
    }
}

/// A string on the wire: its UTF-8 bytes and a NUL byte.
pub open spec fn cstr(s: Seq<char>) -> Seq<u8> {
    encode_utf8(s) + seq![0u8]
}

/// Each option as two strings, key then value.
pub open spec fn options_bytes(options: Seq<(Seq<char>, Seq<char>)>) -> Seq<u8>
    decreases options.len(),
{
    if options.len() == 0 {
        Seq::empty()
    } else {
        options_bytes(options.drop_last()) + cstr(options.last().0) + cstr(options.last().1)
    }
}

/// The startup message after its length field: the protocol version, the
/// user, the other options, and a NUL byte.
pub open spec fn startup_body(user: Seq<char>, options: Seq<(Seq<char>, Seq<char>)>) -> Seq<u8> {
    i32_bytes(PROTOCOL_VERSION) + cstr("user"@) + cstr(user) + options_bytes(options) + seq![0u8]
}

/// The whole startup message: a length field that counts itself, then the body.
pub open spec fn startup_bytes(user: Seq<char>, options: Seq<(Seq<char>, Seq<char>)>) -> Seq<u8> {
    let body = startup_body(user, options);
    i32_bytes((body.len() + 4) as i32) + body
}

/// The whole simple query message: `'Q'`, a length field that counts itself
/// and the query string but not the type byte, then the query string.
pub open spec fn query_bytes(query: Seq<char>) -> Seq<u8> {
    seq![TAG_QUERY] + i32_bytes((cstr(query).len() + 4) as i32) + cstr(query)
}

impl Startup {
    /// Create a new startup message.
    pub fn new(user: String, database: Option<String>, server_options: Option<String>) -> (r: Self)
        ensures
            r@.0 == user@,
            r@.1 == match (database, server_options) {
                (Some(d), Some(o)) => seq![("database"@, d@), ("options"@, o@)],
                (Some(d), None) => seq![("database"@, d@)],
                (None, Some(o)) => seq![("options"@, o@)],
                (None, None) => Seq::<(Seq<char>, Seq<char>)>::empty(),
            },
    {
        let mut options: Vec<(String, String)> = Vec::new();
        if let Some(database) = database {
            options.push(("database".to_owned(), database));
        }
        if let Some(server_options) = server_options {
            options.push(("options".to_owned(), server_options));
        }
        let r = Self { user, options };
        assert(r@.1 =~= match (database, server_options) {
            (Some(d), Some(o)) => seq![("database"@, d@), ("options"@, o@)],
            (Some(d), None) => seq![("database"@, d@)],
            (None, Some(o)) => seq![("options"@, o@)],
            (None, None) => Seq::<(Seq<char>, Seq<char>)>::empty(),
        });
        r
    }

    /// Encode the message for the wire; it fails only when the message is
    /// too long for its length field.
    pub fn encode(&self) -> (r: Result<Vec<u8>, EncodeError>)
        ensures
            startup_body(self@.0, self@.1).len() + 4 <= MAX_MESSAGE_LENGTH ==> (r matches Ok(v)
                && v@ == startup_bytes(self@.0, self@.1)),
            startup_body(self@.0, self@.1).len() + 4 > MAX_MESSAGE_LENGTH ==> r == Err::<
                Vec<u8>,
                EncodeError,
            >(EncodeError::MessageTooLong),
    {
        let ghost options = self@.1;
        let mut writer = Writer::new();
        // Room for the length, which is known at the end.
        writer.skip(4);
        writer.write_i32(PROTOCOL_VERSION);
        writer.write_cstring("user");
        writer.write_cstring(self.user.as_str());
        let ghost head = writer@;
        let mut i: usize = 0;
        while i < self.options.len()
            invariant
                i <= self.options@.len(),
                options == self@.1,
                writer@ == head + options_bytes(options.take(i as int)),
            decreases self.options@.len() - i,
        {
            let (key, value) = &self.options[i];
            writer.write_cstring(key.as_str());
            writer.write_cstring(value.as_str());
            assert(options.take(i + 1).drop_last() =~= options.take(i as int));
            i = i + 1;
        }
        assert(options.take(i as int) =~= options);
        writer.write_u8(0);
        let ghost zeros = Seq::new(4, |k: int| 0u8);
        assert(writer@ =~= zeros + startup_body(self@.0, self@.1));
        let length = writer.len();
        if length > MAX_MESSAGE_LENGTH {
            return Err(EncodeError::MessageTooLong);
        }
        if let Err(e) = writer.write_i32_at(length as i32, 0) {
            return Err(e);
        }
        proof {
            lemma_i32_bytes(length as i32);
        }
        let bytes = writer.finish();
        assert(bytes@ =~= startup_bytes(self@.0, self@.1));
        Ok(bytes)
    }
}

impl Query {
    /// Create a new query message.
    pub fn new(query: String) -> (r: Self)
        ensures
            r@ == query@,
    {
        Self { query }
    }

    /// Encode the message for the wire; it fails only when the message is
    /// too long for its length field.
    pub fn encode(&self) -> (r: Result<Vec<u8>, EncodeError>)
        ensures
            cstr(self@).len() + 4 <= MAX_MESSAGE_LENGTH ==> (r matches Ok(v) && v@ == query_bytes(
                self@,
            )),
            cstr(self@).len() + 4 > MAX_MESSAGE_LENGTH ==> r == Err::<Vec<u8>, EncodeError>(
                EncodeError::MessageTooLong,
            ),
    {
        let mut writer = Writer::new();
        writer.write_u8(TAG_QUERY);
        // Room for the length, which is known at the end.
        writer.skip(4);
        writer.write_cstring(self.query.as_str());
        let length = writer.len() - 1;
        if length > MAX_MESSAGE_LENGTH {
            return Err(EncodeError::MessageTooLong);
        }
        if let Err(e) = writer.write_i32_at(length as i32, 1) {
            return Err(e);
        }
        let bytes = writer.finish();
        assert(bytes@ =~= query_bytes(self@));
        Ok(bytes)
    }
}

/// The type byte of the authentication responses (`'p'`).
pub const TAG_AUTH_RESPONSE: u8 = 0x70;

/// The first SASL message of the client: the chosen mechanism and, if the
/// mechanism has one, the initial response. The bytes come from an
/// authenticator outside this crate; they are framed here, not computed.
pub struct SaslInitialResponse {
    mechanism: String,
    data: Option<Vec<u8>>,
}

/// A later SASL message of the client: opaque bytes from the authenticator.
pub struct SaslResponse {
    data: Vec<u8>,
}

impl View for SaslInitialResponse {
    type V = (Seq<char>, Option<Seq<u8>>);

    closed spec fn view(&self) -> (Seq<char>, Option<Seq<u8>>) {
        (
            self.mechanism@,
            match self.data {
                Some(d) => Some(d@),
                None => None,
            },
        )
    }
}

impl View for SaslResponse {
    type V = Seq<u8>;

    closed spec fn view(&self) -> Seq<u8> {
        self.data@
    }
}

/// Optional bytes on the wire: `-1` for none, else the length and the bytes.
pub open spec fn optional_bytes(data: Option<Seq<u8>>) -> Seq<u8> {
    match data {
        None => i32_bytes(-1i32),
        Some(d) => i32_bytes(d.len() as i32) + d,
    }
}

/// The body of a SASL initial response: mechanism, then the optional data.
pub open spec fn sasl_initial_body(mechanism: Seq<char>, data: Option<Seq<u8>>) -> Seq<u8> {
    cstr(mechanism) + optional_bytes(data)
}

/// A whole message of type `'p'` around `body`; the length field counts
/// itself and the body.
pub open spec fn auth_response_bytes(body: Seq<u8>) -> Seq<u8> {
    seq![TAG_AUTH_RESPONSE] + i32_bytes((body.len() + 4) as i32) + body
}

impl SaslInitialResponse {
    /// Create the first SASL message.
    pub fn new(mechanism: String, data: Option<Vec<u8>>) -> (r: Self)
        ensures
            r@.0 == mechanism@,
            r@.1 == match data {
                Some(d) => Some(d@),
                None => None::<Seq<u8>>,
            },
    {
        Self { mechanism, data }
    }

    /// Encode the message for the wire; it fails only when the message is
    /// too long for its length field.
    pub fn encode(&self) -> (r: Result<Vec<u8>, EncodeError>)
        ensures
            sasl_initial_body(self@.0, self@.1).len() + 4 <= MAX_MESSAGE_LENGTH ==> (r matches Ok(
                v,
            ) && v@ == auth_response_bytes(sasl_initial_body(self@.0, self@.1))),
            sasl_initial_body(self@.0, self@.1).len() + 4 > MAX_MESSAGE_LENGTH ==> r == Err::<
                Vec<u8>,
                EncodeError,
            >(EncodeError::MessageTooLong),
    {
        let mut writer = Writer::new();
        writer.write_u8(TAG_AUTH_RESPONSE);
        // Room for the length, which is known at the end.
        writer.skip(4);
        writer.write_cstring(self.mechanism.as_str());
        match &self.data {
            Some(d) => {
                if d.len() > MAX_MESSAGE_LENGTH {
                    return Err(EncodeError::MessageTooLong);
                }
                writer.write_i32(d.len() as i32);
                writer.write_bytes(d.as_slice());
            },
            None => writer.write_i32(-1),
        }
        let length = writer.len() - 1;
        if length > MAX_MESSAGE_LENGTH {
            return Err(EncodeError::MessageTooLong);
        }
        if let Err(e) = writer.write_i32_at(length as i32, 1) {
            return Err(e);
        }
        let bytes = writer.finish();
        assert(bytes@ =~= auth_response_bytes(sasl_initial_body(self@.0, self@.1)));
        Ok(bytes)
    }
}

impl SaslResponse {
    /// Create a later SASL message.
    pub fn new(data: Vec<u8>) -> (r: Self)
        ensures
            r@ == data@,
    {
        Self { data }
    }

    /// Encode the message for the wire; it fails only when the message is
    /// too long for its length field.
    pub fn encode(&self) -> (r: Result<Vec<u8>, EncodeError>)
        ensures
            self@.len() + 4 <= MAX_MESSAGE_LENGTH ==> (r matches Ok(v) && v@
                == auth_response_bytes(self@)),
            self@.len() + 4 > MAX_MESSAGE_LENGTH ==> r == Err::<Vec<u8>, EncodeError>(
                EncodeError::MessageTooLong,
            ),
    {
        let mut writer = Writer::new();
        writer.write_u8(TAG_AUTH_RESPONSE);
        // Room for the length, which is known at the end.
        writer.skip(4);
        writer.write_bytes(self.data.as_slice());
        let length = writer.len() - 1;
        if length > MAX_MESSAGE_LENGTH {
            return Err(EncodeError::MessageTooLong);
        }
        if let Err(e) = writer.write_i32_at(length as i32, 1) {
            return Err(e);
        }
        let bytes = writer.finish();
        assert(bytes@ =~= auth_response_bytes(self@));
        Ok(bytes)
    }
}

/// The length field of an encoded startup message, read back as the
/// server reads it, is the length of the whole encoded message.
pub proof fn lemma_startup_length_field(user: Seq<char>, options: Seq<(Seq<char>, Seq<char>)>)
    requires
        startup_body(user, options).len() + 4 <= MAX_MESSAGE_LENGTH,
    ensures
        spec_read_i32(startup_bytes(user, options), 0) == Ok::<(i32, nat), DecodeError>(
            (startup_bytes(user, options).len() as i32, 4),
        ),
{
    let body = startup_body(user, options);
    let n = (body.len() + 4) as i32;
    lemma_i32_bytes(n);
    let all = startup_bytes(user, options);
    assert(all.subrange(0, 4) =~= i32_bytes(n).subrange(0, 4));
    crate::util::lemma_i32_at_subrange(all, i32_bytes(n), 0, 0);
}

/// The length field of an encoded simple query counts everything but the
/// type byte.
pub proof fn lemma_query_length_field(query: Seq<char>)
    requires
        cstr(query).len() + 4 <= MAX_MESSAGE_LENGTH,
    ensures
        spec_read_i32(query_bytes(query), 1) == Ok::<(i32, nat), DecodeError>(
            ((query_bytes(query).len() - 1) as i32, 5),
        ),
{
    let n = (cstr(query).len() + 4) as i32;
    lemma_i32_bytes(n);
    let all = query_bytes(query);
    assert(all.subrange(1, 5) =~= i32_bytes(n).subrange(0, 4));
    crate::util::lemma_i32_at_subrange(all, i32_bytes(n), 1, 0);
}

} // verus!
