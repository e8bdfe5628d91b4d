//! The echo server's side of the exchange: what it answers to what it
//! receives. Accepting connections and moving bytes is left to the caller.

use crate::error::KvsError;
use crate::protocol::{Message, Payload, PayloadKind, MAGIC_WORD};
use vstd::prelude::*;
use vstd::utf8::encode_utf8;

verus! {

/// The echo server.
pub struct Server {}

impl Server {
    /// A server.
    pub fn new() -> (server: Server) {
        Server {  }
    }

    /// What the server sends back for a payload that it received: an echo
    /// request is answered by an echo response that carries the same text,
    /// anything else is not answered.
    pub fn dispatch(&self, payload: Payload) -> (res: Result<Option<Message>, KvsError>)
        ensures
            match payload.spec_kind() {
                PayloadKind::EchoRequest => res matches Ok(Some(m)) && m.spec_magic_word()
                    == MAGIC_WORD && m.spec_payload_kind() == PayloadKind::EchoResponse
                    && m.spec_payload_bytes() == encode_utf8(payload.spec_message()).len()
                    && m.spec_encoded_payload() == encode_utf8(payload.spec_message()),
                PayloadKind::EchoResponse => res matches Ok(None),
            },
    {
        match payload {
            Payload::EchoRequest { message } => {
                match Message::from_payload(Payload::EchoResponse { message }) {
                    Ok(reply) => Ok(Some(reply)),
                    Err(err) => Err(err),
                }
            },
            Payload::EchoResponse { .. } => Ok(None),
        }
    }
}

impl Default for Server {
    fn default() -> (server: Server) {
        Server::new()
    }
}

} // verus!
