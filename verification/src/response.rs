//! Replies of the conversation history endpoint, and what the export makes
//! of them.

use std::collections::VecDeque;
use vstd::prelude::*;
use vstd::string::StringExecFns;

use crate::json::describe;

verus! {

/// Where the next page starts, as the endpoint reports it.
pub struct ResponseMetadata {
    pub next_cursor: String,
}

/// One decoded reply of the endpoint. Fields that the reply left out hold
/// `false`, no messages, or nothing.
pub struct Response {
    pub ok: bool,
    pub messages: Vec<serde_json::Value>,
    pub has_more: bool,
    pub response_metadata: Option<ResponseMetadata>,
    pub error: Option<String>,
}

/// Why an export stops early.
pub enum ExportError {
    /// The endpoint answered `ok == false`; the text is its own, or
    /// "Unknown" where it gave none.
    Api(String),
    /// The endpoint announced more pages and gave no cursor to reach them.
    MissingCursor,
    /// A message could not be written as JSON. No JSON value gives it; it
    /// is kept for the error that the encoder can return by its type.
    Encode(serde_json::Error),
}

/// What a reply amounts to.
pub enum Outcome {
    /// The endpoint reported a failure, with this text.
    Refused(Seq<char>),
    /// More pages are announced, and no cursor is given.
    Inconsistent,
    /// The last page, with its messages.
    Last(Seq<serde_json::Value>),
    /// A page with its messages and the cursor of the next one.
    More(Seq<serde_json::Value>, Seq<char>),
}

impl Response {
    /// What this reply amounts to: failure is looked at first, then the
    /// announcement of more pages.
    pub open spec fn outcome(self) -> Outcome {
        if !self.ok {
            match self.error {
                Some(text) => Outcome::Refused(text@),
                None => Outcome::Refused("Unknown"@),
            }
        } else if self.has_more {
            match self.response_metadata {
                Some(metadata) => Outcome::More(self.messages@, metadata.next_cursor@),
                None => Outcome::Inconsistent,
            }
        } else {
            Outcome::Last(self.messages@)
        }
    }
}

/// The messages of one page that are still to be handed out, and whether
/// another page follows.
pub enum MessageChunk {
    NonTerminal { messages: VecDeque<serde_json::Value>, next_cursor: String },
    Terminal { messages: VecDeque<serde_json::Value> },
}

impl MessageChunk {
    /// The messages that are still to be handed out, oldest request first.
    pub open spec fn remaining(self) -> Seq<serde_json::Value> {
        match self {
            MessageChunk::NonTerminal { messages, .. } => messages@,
            MessageChunk::Terminal { messages } => messages@,
        }
    }

    /// The cursor of the next page, if one follows.
    pub open spec fn cursor(self) -> Option<Seq<char>> {
        match self {
            MessageChunk::NonTerminal { next_cursor, .. } => Some(next_cursor@),
            MessageChunk::Terminal { .. } => None,
        }
    }

    /// The chunk holds the messages and the cursor of a valid page.
    pub open spec fn holds(self, outcome: Outcome) -> bool {
        match outcome {
            Outcome::Last(messages) => self.remaining() == messages && self.cursor().is_none(),
            Outcome::More(messages, cursor) => self.remaining() == messages && self.cursor()
                == Some(cursor),
            _ => false,
        }
    }

    /// Hands out the next message of this chunk, if any is left.
    pub fn next(&mut self) -> (r: Option<serde_json::Value>)
        ensures
            final(self).cursor() == old(self).cursor(),
            old(self).remaining().len() == 0 ==> r.is_none() && final(self).remaining()
                == old(self).remaining(),
            old(self).remaining().len() > 0 ==> r == Some(old(self).remaining()[0])
                && final(self).remaining() == old(self).remaining().drop_first(),
    {
        match self {
            MessageChunk::NonTerminal { messages, .. } => messages.pop_front(),
            MessageChunk::Terminal { messages } => messages.pop_front(),
        }
    }

    /// The messages that are still to be handed out.
    pub fn messages(&self) -> (r: &VecDeque<serde_json::Value>)
        ensures
            r@ == self.remaining(),
    {
        match self {
            MessageChunk::NonTerminal { messages, .. } => messages,
            MessageChunk::Terminal { messages } => messages,
        }
    }
}

impl TryFrom<Response> for MessageChunk {
    type Error = ExportError;

    /// Validates a reply and turns it into a chunk.
    fn try_from(response: Response) -> (r: Result<MessageChunk, ExportError>)
        ensures
            match response.outcome() {
                Outcome::Refused(text) => r matches Err(ExportError::Api(given)) && given@ == text,
                Outcome::Inconsistent => r matches Err(ExportError::MissingCursor),
                outcome => r matches Ok(chunk) && chunk.holds(outcome),
            },
    {
        let Response { ok, messages, has_more, response_metadata, error } = response;
        if !ok {
            let text = match error {
                Some(text) => text,
                None => String::from_str("Unknown"),
            };
            return Err(ExportError::Api(text));
        }
        if has_more {
            match response_metadata {
                Some(metadata) => Ok(
                    MessageChunk::NonTerminal {
                        messages: queue_of(messages),
                        next_cursor: metadata.next_cursor,
                    },
                ),
                None => Err(ExportError::MissingCursor),
            }
        } else {
            Ok(MessageChunk::Terminal { messages: queue_of(messages) })
        }
    }
}

/// The result of `try_from` is stated by its own contract, over the views
/// of the messages and of the texts: a queue and a `String` are not told by
/// their views alone, so no spec function can name the value itself.
impl vstd::std_specs::convert::TryFromSpecImpl<Response> for MessageChunk {
    open spec fn obeys_try_from_spec() -> bool {
        false
    }

    open spec fn try_from_spec(response: Response) -> Result<MessageChunk, ExportError> {
        match response.outcome() {
            Outcome::Refused(text) => Err(ExportError::Api(choose|given: String| given@ == text)),
            Outcome::Inconsistent => Err(ExportError::MissingCursor),
            outcome => Ok(choose|chunk: MessageChunk| chunk.holds(outcome)),
        }
    }
}

/// Moves the items into a queue, keeping their order.
pub(crate) fn queue_of<T>(items: Vec<T>) -> (queue: VecDeque<T>)
    ensures
        queue@ == items@,
{
    let mut rest = items;
    let mut queue: VecDeque<T> = VecDeque::new();
    while rest.len() > 0
        invariant
            rest@ + queue@ == items@,
        decreases rest.len(),
    {
        let ghost before = rest@;
        let ghost queued = queue@;
        match rest.pop() {
            Some(item) => {
                queue.push_front(item);
                assert(rest@ + queue@ =~= before + queued);
            },
            None => {},
        }
    }
    assert(rest@ + queue@ =~= queue@);
    queue
}

impl ExportError {
    /// The text of the error for a reader.
    pub open spec fn message_text(self, text: Seq<char>) -> bool {
        match self {
            ExportError::Api(given) => text == "Error fetching data from the Slack API: "@ + given@,
            ExportError::MissingCursor => text
                == "Error fetching additional data: Slack API response missing cursor"@,
            ExportError::Encode(_) => true,
        }
    }

    /// Describes the error for a reader. For an error of the endpoint the
    /// text ends in the endpoint's own words.
    pub fn message(&self) -> (text: String)
        ensures
            self.message_text(text@),
    {
        match self {
            ExportError::Api(given) => String::from_str(
                "Error fetching data from the Slack API: ",
            ).concat(given.as_str()),
            ExportError::MissingCursor => String::from_str(
                "Error fetching additional data: Slack API response missing cursor",
            ),
            ExportError::Encode(error) => describe(error),
        }
    }
}

} // verus!
