//! The messages of the echo exchange between a client and the server: what a
//! payload is, how it is framed, and what the server answers.

use crate::error::KvsError;
use vstd::prelude::*;
use vstd::slice::slice_to_vec;
use vstd::utf8::encode_utf8;

verus! {

/// The byte that opens every message.
pub const MAGIC_WORD: u8 = 0xFF;

/// Which of the two payloads a message carries.
#[derive(Clone, Copy, Debug, PartialEq, Eq, Structural)]
pub enum PayloadKind {
    EchoRequest,
    EchoResponse,
}

impl PayloadKind {
    /// The byte that names this kind on the wire: 100 for a request, 101 for
    /// a response.
    pub open spec fn code(self) -> u8 {
        match self {
            PayloadKind::EchoRequest => 100,
            PayloadKind::EchoResponse => 101,
        }
    }

    /// The byte that names this kind on the wire.
    pub fn to_u8(self) -> (code: u8)
        ensures
            code == self.code(),
    {
        match self {
            PayloadKind::EchoRequest => 100,
            PayloadKind::EchoResponse => 101,
        }
    }

    /// The kind that a byte of the wire names, if any.
    pub fn from_u8(code: u8) -> (kind: Option<PayloadKind>)
        ensures
            match kind {
                Some(kind) => kind.code() == code,
                None => code != 100 && code != 101,
            },
    {
        if code == 100 {
            Some(PayloadKind::EchoRequest)
        } else if code == 101 {
            Some(PayloadKind::EchoResponse)
        } else {
            None
        }
    }
}

/// What a message says.
#[derive(Debug)]
pub enum Payload {
    EchoRequest { message: String },
    EchoResponse { message: String },
}

impl Payload {
    /// Which of the two payloads a value is.
    pub open spec fn spec_kind(&self) -> PayloadKind {
        match self {
            Payload::EchoRequest { .. } => PayloadKind::EchoRequest,
            Payload::EchoResponse { .. } => PayloadKind::EchoResponse,
        }
    }

    /// The text that a payload carries, as a sequence of characters.
    pub open spec fn spec_message(&self) -> Seq<char> {
        match self {
            Payload::EchoRequest { message } => message@,
            Payload::EchoResponse { message } => message@,
        }
    }

    /// Which of the two payloads this is.
    pub fn kind(&self) -> (kind: PayloadKind)
        ensures
            kind == self.spec_kind(),
    {
        match self {
            Payload::EchoRequest { .. } => PayloadKind::EchoRequest,
            Payload::EchoResponse { .. } => PayloadKind::EchoResponse,
        }
    }

    /// The text that the payload carries.
    pub fn message(&self) -> (message: &str)
        ensures
            message@ == self.spec_message(),
    {
        match self {
            Payload::EchoRequest { message } => message.as_str(),
            Payload::EchoResponse { message } => message.as_str(),
        }
    }

    /// The payload of the given kind and text.
    pub fn with_kind(kind: PayloadKind, message: String) -> (payload: Payload)
        ensures
            payload.spec_kind() == kind,
            payload.spec_message() == message@,
    {
        match kind {
            PayloadKind::EchoRequest => Payload::EchoRequest { message },
            PayloadKind::EchoResponse => Payload::EchoResponse { message },
        }
    }
}

/// The fixed fields that precede the payload of a message.
pub struct Header {
    magic_word: u8,
    payload_kind: PayloadKind,
    payload_bytes: u64,
}

/// A payload made ready to be sent: its header and its bytes.
pub struct Message {
    header: Header,
    encoded_payload: Vec<u8>,
}

impl Message {
    /// The opening byte of the message.
    pub closed spec fn spec_magic_word(&self) -> u8 {
        self.header.magic_word
    }

    /// The kind that the header announces.
    pub closed spec fn spec_payload_kind(&self) -> PayloadKind {
        self.header.payload_kind
    }

    /// The number of payload bytes that the header announces.
    pub closed spec fn spec_payload_bytes(&self) -> u64 {
        self.header.payload_bytes
    }

    /// The bytes of the payload.
    pub closed spec fn spec_encoded_payload(&self) -> Seq<u8> {
        self.encoded_payload@
    }

    /// Frames a payload: the header opens with the magic word, names the
    /// payload's kind and counts the bytes of its text, and the bytes that
    /// follow are the text in UTF-8.
    pub fn from_payload(payload: Payload) -> (res: Result<Message, KvsError>)
        ensures
            res matches Ok(m) && m.spec_magic_word() == MAGIC_WORD && m.spec_payload_kind()
                == payload.spec_kind() && m.spec_payload_bytes() == encode_utf8(
                payload.spec_message(),
            ).len() && m.spec_encoded_payload() == encode_utf8(payload.spec_message()),
    {
        let kind = payload.kind();
        let bytes = payload.message().as_bytes();
        let buff = slice_to_vec(bytes);
        let payload_bytes = bytes.len() as u64;
        Ok(
            Message {
                header: Header { magic_word: MAGIC_WORD, payload_kind: kind, payload_bytes },
                encoded_payload: buff,
            },
        )
    }

    /// The opening byte of the message.
    pub fn magic_word(&self) -> (b: u8)
        ensures
            b == self.spec_magic_word(),
    {
        self.header.magic_word
    }

    /// The kind that the header announces.
    pub fn payload_kind(&self) -> (kind: PayloadKind)
        ensures
            kind == self.spec_payload_kind(),
    {
        self.header.payload_kind
    }

    /// The number of payload bytes that the header announces.
    pub fn payload_bytes(&self) -> (n: u64)
        ensures
            n == self.spec_payload_bytes(),
    {
        self.header.payload_bytes
    }

    /// The bytes of the payload.
    pub fn encoded_payload(&self) -> (bytes: &Vec<u8>)
        ensures
            bytes@ == self.spec_encoded_payload(),
    {
        &self.encoded_payload
    }
}

} // verus!
