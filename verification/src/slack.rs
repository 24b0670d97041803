//! The paginator: which request fetches a page, and what follows a reply.

use vstd::prelude::*;
use vstd::string::StringExecFns;

use crate::response::ExportError;
use crate::response::MessageChunk;
use crate::response::Response;
use crate::response::Outcome;

verus! {

/// The conversation history endpoint of the Slack API.
pub const CONVERSATION_HISTORY_ENDPOINT: &'static str =
    "https://slack.com/api/conversations.history";

/// The largest number of messages asked for in one page.
pub const RESPONSE_MESSAGE_LIMIT: i16 = 1000;

/// The character of a decimal digit.
pub open spec fn digit_text(digit: nat) -> Seq<char> {
    if digit == 0 {
        "0"@
    } else if digit == 1 {
        "1"@
    } else if digit == 2 {
        "2"@
    } else if digit == 3 {
        "3"@
    } else if digit == 4 {
        "4"@
    } else if digit == 5 {
        "5"@
    } else if digit == 6 {
        "6"@
    } else if digit == 7 {
        "7"@
    } else if digit == 8 {
        "8"@
    } else {
        "9"@
    }
}

/// A number in decimal digits, without leading zeros.
pub open spec fn decimal_text(n: nat) -> Seq<char>
    decreases n,
{
    if n < 10 {
        digit_text(n)
    } else {
        decimal_text(n / 10) + digit_text(n % 10)
    }
}

/// The page size as the query carries it.
pub proof fn lemma_limit_text()
    ensures
        decimal_text(RESPONSE_MESSAGE_LIMIT as nat) == "1000"@,
{
    reveal_strlit("0");
    reveal_strlit("1");
    reveal_strlit("1000");
    reveal_with_fuel(decimal_text, 4);
    assert(decimal_text(1000) =~= "1000"@);
}

fn digit(d: i16) -> (text: &'static str)
    requires
        0 <= d < 10,
    ensures
        text@ == digit_text(d as nat),
{
    if d == 0 {
        "0"
    } else if d == 1 {
        "1"
    } else if d == 2 {
        "2"
    } else if d == 3 {
        "3"
    } else if d == 4 {
        "4"
    } else if d == 5 {
        "5"
    } else if d == 6 {
        "6"
    } else if d == 7 {
        "7"
    } else if d == 8 {
        "8"
    } else {
        "9"
    }
}

fn decimal(n: i16) -> (text: String)
    requires
        0 <= n,
    ensures
        text@ == decimal_text(n as nat),
    decreases n,
{
    if n < 10 {
        String::from_str(digit(n))
    } else {
        decimal(n / 10).concat(digit(n % 10))
    }
}

/// What the caller supplies once: the credential and the channel.
pub struct Configuration {
    pub api_token: String,
    pub channel: String,
}

/// Slack API client for a single channel.
pub struct Slack {
    api_token: String,
    channel: String,
}

/// One GET request to the endpoint: where it goes, the bearer credential,
/// and the query parameters in order.
pub struct Request {
    pub endpoint: String,
    pub bearer_token: String,
    pub query: Vec<(String, String)>,
}

/// Where a sequence stands: the messages of the current page that are
/// still to come, and the cursor of the page after it, if one follows.
pub struct Position {
    pub remaining: Seq<serde_json::Value>,
    pub cursor: Option<Seq<char>>,
}

/// What a pull gives, a request being told by the cursor it carries.
pub enum Step {
    Message(serde_json::Value),
    Finished,
    Fetch(Seq<char>),
}

/// One pull: where the sequence stands afterwards, and what the pull gives.
pub open spec fn pull(at: Position) -> (Position, Step) {
    if at.remaining.len() > 0 {
        (
            Position { remaining: at.remaining.drop_first(), cursor: at.cursor },
            Step::Message(at.remaining[0]),
        )
    } else {
        match at.cursor {
            None => (at, Step::Finished),
            Some(cursor) => (at, Step::Fetch(cursor)),
        }
    }
}

/// Where a sequence stands at the start of a valid page.
pub open spec fn position_of(outcome: Outcome) -> Position {
    match outcome {
        Outcome::Last(messages) => Position { remaining: messages, cursor: None },
        Outcome::More(messages, cursor) => Position { remaining: messages, cursor: Some(cursor) },
        _ => Position { remaining: Seq::empty(), cursor: None },
    }
}

/// What a pull on the message sequence gives.
pub enum Pull {
    /// The next message.
    Message(serde_json::Value),
    /// The sequence has ended.
    Finished,
    /// The current page is used up: send this request and supply its reply.
    Fetch(Request),
}

impl Pull {
    /// The pull, with a request told by the cursor it carries.
    pub open spec fn step(self) -> Step {
        match self {
            Pull::Message(message) => Step::Message(message),
            Pull::Finished => Step::Finished,
            Pull::Fetch(request) => Step::Fetch(request.query@[2].1@),
        }
    }
}

impl Slack {
    /// The bearer credential.
    pub closed spec fn api_token(self) -> Seq<char> {
        self.api_token@
    }

    /// The channel whose history is read.
    pub closed spec fn channel(self) -> Seq<char> {
        self.channel@
    }

    /// `request` is the request of this client for the page behind `cursor`,
    /// or for the first page where there is none: the fixed endpoint, the
    /// credential, then `channel`, `limit` and, only with a cursor, `cursor`.
    pub open spec fn asks(self, request: Request, cursor: Option<Seq<char>>) -> bool {
        &&& request.endpoint@ == CONVERSATION_HISTORY_ENDPOINT@
        &&& request.bearer_token@ == self.api_token()
        &&& request.query@.len() == (if cursor.is_some() { 3int } else { 2int })
        &&& request.query@[0].0@ == "channel"@
        &&& request.query@[0].1@ == self.channel()
        &&& request.query@[1].0@ == "limit"@
        &&& request.query@[1].1@ == decimal_text(RESPONSE_MESSAGE_LIMIT as nat)
        &&& cursor matches Some(text) ==> request.query@[2].0@ == "cursor"@ && request.query@[2].1@
            == text
    }

    /// The request for a single chunk of messages.
    pub fn chunk_request(&self, cursor: Option<&String>) -> (request: Request)
        ensures
            self.asks(
                request,
                match cursor {
                    Some(text) => Some(text@),
                    None => None,
                },
            ),
    {
        let mut query: Vec<(String, String)> = Vec::new();
        query.push((String::from_str("channel"), self.channel.clone()));
        query.push((String::from_str("limit"), decimal(RESPONSE_MESSAGE_LIMIT)));
        match cursor {
            Some(text) => {
                query.push((String::from_str("cursor"), text.clone()));
            },
            None => {},
        }
        Request {
            endpoint: String::from_str(CONVERSATION_HISTORY_ENDPOINT),
            bearer_token: self.api_token.clone(),
            query,
        }
    }

    /// All of the messages of the channel, starting from the reply to the
    /// request for the first page.
    pub fn messages(&self, first: Response) -> (r: Result<Messages<'_>, ExportError>)
        ensures
            match first.outcome() {
                Outcome::Refused(text) => r matches Err(ExportError::Api(given)) && given@ == text,
                Outcome::Inconsistent => r matches Err(ExportError::MissingCursor),
                outcome => r matches Ok(messages) && messages.client() == self
                    && messages.current_chunk().holds(outcome) && messages.position()
                    == position_of(outcome),
            },
    {
        match MessageChunk::try_from(first) {
            Ok(current_chunk) => Ok(Messages { client: self, current_chunk }),
            Err(error) => Err(error),
        }
    }
}

impl From<Configuration> for Slack {
    /// A client for the configured channel.
    fn from(configuration: Configuration) -> (slack: Slack)
        ensures
            slack.api_token() == configuration.api_token@,
            slack.channel() == configuration.channel@,
    {
        let Configuration { api_token, channel } = configuration;
        Slack { api_token, channel }
    }
}

impl vstd::std_specs::convert::FromSpecImpl<Configuration> for Slack {
    open spec fn obeys_from_spec() -> bool {
        true
    }

    closed spec fn from_spec(configuration: Configuration) -> Slack {
        Slack { api_token: configuration.api_token, channel: configuration.channel }
    }
}

/// The messages of a channel, page after page. Single pass: what was
/// handed out is gone.
pub struct Messages<'a> {
    client: &'a Slack,
    current_chunk: MessageChunk,
}

impl<'a> Messages<'a> {
    /// The client whose requests this sequence asks for.
    pub closed spec fn client(self) -> &'a Slack {
        self.client
    }

    /// The page being handed out.
    pub closed spec fn current_chunk(self) -> MessageChunk {
        self.current_chunk
    }

    /// The messages of the current page that are still to come.
    pub open spec fn remaining(self) -> Seq<serde_json::Value> {
        self.current_chunk().remaining()
    }

    /// The cursor of the page after the current one, if one follows.
    pub open spec fn cursor(self) -> Option<Seq<char>> {
        self.current_chunk().cursor()
    }

    /// Where the sequence stands.
    pub open spec fn position(self) -> Position {
        Position { remaining: self.remaining(), cursor: self.cursor() }
    }

    /// Pulls once: the next message of the current page; with the page used
    /// up, the end of the sequence after a last page, else the request for
    /// the page that follows.
    pub fn next(&mut self) -> (r: Pull)
        ensures
            (final(self).position(), r.step()) == pull(old(self).position()),
            final(self).client() == old(self).client(),
            final(self).cursor() == old(self).cursor(),
            old(self).remaining().len() > 0 ==> (r matches Pull::Message(message) && message
                == old(self).remaining()[0]),
            old(self).remaining().len() > 0 ==> final(self).remaining() == old(
                self,
            ).remaining().drop_first(),
            old(self).remaining().len() == 0 ==> final(self).remaining() == old(self).remaining(),
            old(self).remaining().len() == 0 ==> match old(self).cursor() {
                None => r is Finished,
                Some(cursor) => (r matches Pull::Fetch(request) && old(self).client().asks(
                    request,
                    Some(cursor),
                )),
            },
    {
        match self.current_chunk.next() {
            Some(message) => Pull::Message(message),
            None => match &self.current_chunk {
                MessageChunk::Terminal { .. } => Pull::Finished,
                MessageChunk::NonTerminal { next_cursor, .. } => Pull::Fetch(
                    self.client.chunk_request(Some(next_cursor)),
                ),
            },
        }
    }

    /// Takes the reply to a request that `next` asked for: a valid page
    /// replaces the current one, anything else leaves it and is the error.
    pub fn supply(&mut self, response: Response) -> (r: Result<(), ExportError>)
        ensures
            final(self).client() == old(self).client(),
            match response.outcome() {
                Outcome::Refused(text) => (r matches Err(ExportError::Api(given)) && given@
                    == text) && *final(self) == *old(self),
                Outcome::Inconsistent => r == Err::<(), ExportError>(ExportError::MissingCursor)
                    && *final(self) == *old(self),
                outcome => r is Ok && final(self).current_chunk().holds(outcome)
                    && final(self).position() == position_of(outcome),
            },
    {
        match MessageChunk::try_from(response) {
            Ok(chunk) => {
                self.current_chunk = chunk;
                Ok(())
            },
            Err(error) => Err(error),
        }
    }
}

} // verus!
