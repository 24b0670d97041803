//! The streaming emitter: the bytes of one JSON array, piece by piece.

use vstd::prelude::*;

use crate::json::json_text;
use crate::json::to_json;
use crate::response::ExportError;

verus! {

/// The byte that opens the array.
pub const OPEN: u8 = 0x5b;

/// The byte that closes the array.
pub const CLOSE: u8 = 0x5d;

/// The byte between two messages.
pub const COMMA: u8 = 0x2c;

/// The items with one comma between each two neighbours.
pub open spec fn joined(items: Seq<Seq<u8>>) -> Seq<u8>
    decreases items.len(),
{
    if items.len() == 0 {
        Seq::empty()
    } else if items.len() == 1 {
        items[0]
    } else {
        joined(items.drop_last()) + seq![COMMA] + items.last()
    }
}

/// The array of the items: a bracket, the items with commas between them,
/// a bracket.
pub open spec fn array_text(items: Seq<Seq<u8>>) -> Seq<u8> {
    seq![OPEN] + joined(items) + seq![CLOSE]
}

/// The JSON text of each message.
pub open spec fn texts(messages: Seq<serde_json::Value>) -> Seq<Seq<u8>> {
    messages.map_values(|message: serde_json::Value| json_text(message))
}

/// What follows the text of a message: a comma before another message, the
/// closing bracket after the last.
pub open spec fn tail(followed: bool) -> Seq<u8> {
    if followed {
        seq![COMMA]
    } else {
        seq![CLOSE]
    }
}

/// The bytes that one pull adds to the output.
pub open spec fn step_text(
    pending: Option<serde_json::Value>,
    pulled: Option<serde_json::Value>,
) -> Seq<u8> {
    match pending {
        Some(message) => json_text(message) + tail(pulled.is_some()),
        None => if pulled.is_some() {
            Seq::empty()
        } else {
            seq![CLOSE]
        },
    }
}

/// The text of a message with what follows it.
pub fn piece(encoded: Vec<u8>, followed: bool) -> (bytes: Vec<u8>)
    ensures
        bytes@ == encoded@ + tail(followed),
{
    let mut bytes = encoded;
    if followed {
        bytes.push(COMMA);
    } else {
        bytes.push(CLOSE);
    }
    bytes
}

/// Writes the array with a lookahead of one message: a message is held
/// back until the next pull tells whether a comma follows it.
pub struct Emitter {
    pending: Option<serde_json::Value>,
}

impl Emitter {
    /// The message that is held back.
    pub closed spec fn pending(self) -> Option<serde_json::Value> {
        self.pending
    }

    /// Opens the array: the bytes to write before anything is pulled, and
    /// an emitter that holds nothing back.
    pub fn start() -> (r: (Emitter, Vec<u8>))
        ensures
            r.0.pending().is_none(),
            r.1@ == seq![OPEN],
    {
        let mut bytes: Vec<u8> = Vec::new();
        bytes.push(OPEN);
        (Emitter { pending: None }, bytes)
    }

    /// Takes what a pull gave, a message or the end, and returns the bytes to
    /// write now: the message held back with what follows it. Every JSON
    /// value can be encoded, so this succeeds on every input.
    pub fn feed(&mut self, pulled: Option<serde_json::Value>) -> (r: Result<Vec<u8>, ExportError>)
        ensures
            final(self).pending() == pulled,
            r matches Ok(bytes) && bytes@ == step_text(old(self).pending(), pulled),
    {
        let followed = pulled.is_some();
        let pending = self.pending.take();
        self.pending = pulled;
        match pending {
            Some(message) => match to_json(&message) {
                Ok(encoded) => Ok(piece(encoded, followed)),
                Err(error) => Err(ExportError::Encode(error)),
            },
            None => {
                let mut bytes: Vec<u8> = Vec::new();
                if !followed {
                    bytes.push(CLOSE);
                }
                Ok(bytes)
            },
        }
    }
}

} // verus!
