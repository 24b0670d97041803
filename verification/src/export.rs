//! A whole export, replayed from recorded replies.

use vstd::prelude::*;

use crate::emit::array_text;
use crate::emit::joined;
use crate::emit::texts;
use crate::emit::Emitter;
use crate::emit::CLOSE;
use crate::emit::COMMA;
use crate::emit::OPEN;
use crate::response::queue_of;
use crate::response::ExportError;
use crate::response::Response;
use crate::response::Outcome;
use crate::slack::Pull;
use crate::slack::Request;
use crate::slack::Slack;

verus! {

/// The cursor that a reply gives for the page after it.
pub open spec fn cursor_of(page: Response) -> Option<Seq<char>> {
    match page.outcome() {
        Outcome::More(_, cursor) => Some(cursor),
        _ => None,
    }
}

/// The replies of one run, in order: each but the last is a valid page that
/// leads on to the next, and the last one does not lead on.
pub open spec fn recorded(pages: Seq<Response>) -> bool {
    &&& pages.len() > 0
    &&& forall|i: int| 0 <= i < pages.len() - 1 ==> cursor_of(#[trigger] pages[i]).is_some()
    &&& cursor_of(pages.last()).is_none()
}

/// Whether a reply is a valid page that gives the cursor of the next one.
pub fn leads_on(page: &Response) -> (b: bool)
    ensures
        b == cursor_of(*page).is_some(),
{
    page.ok && page.has_more && page.response_metadata.is_some()
}

/// Whether the replies are those of one run, as `recorded` says.
pub fn is_recorded(pages: &Vec<Response>) -> (b: bool)
    ensures
        b == recorded(pages@),
{
    if pages.len() == 0 {
        return false;
    }
    let last: usize = pages.len() - 1;
    let mut i: usize = 0;
    while i < last
        invariant
            i <= last,
            last == pages@.len() - 1,
            forall|j: int| 0 <= j < i ==> cursor_of(#[trigger] pages@[j]).is_some(),
        decreases last - i,
    {
        if !leads_on(&pages[i]) {
            return false;
        }
        i += 1;
    }
    !leads_on(&pages[last])
}

/// The messages of all pages, in request order.
pub open spec fn all_messages(pages: Seq<Response>) -> Seq<serde_json::Value>
    decreases pages.len(),
{
    if pages.len() == 0 {
        Seq::empty()
    } else {
        pages.first().messages@ + all_messages(pages.drop_first())
    }
}

/// The cursor that the request for page `i` carries: none for the first
/// page, else the one that the reply before gave.
pub open spec fn cursor_before(pages: Seq<Response>, i: int) -> Option<Seq<char>> {
    if i == 0 {
        None
    } else {
        cursor_of(pages[i - 1])
    }
}

/// The output of a run that ends with a last page.
pub open spec fn exported(pages: Seq<Response>) -> Seq<u8> {
    array_text(texts(all_messages(pages)))
}

/// The items, each followed by a comma.
spec fn commaed(items: Seq<Seq<u8>>) -> Seq<u8>
    decreases items.len(),
{
    if items.len() == 0 {
        Seq::empty()
    } else {
        commaed(items.drop_last()) + items.last() + seq![COMMA]
    }
}

/// The bytes written while the last of the messages fed is still held back.
spec fn streamed(fed: Seq<serde_json::Value>) -> Seq<u8> {
    if fed.len() == 0 {
        seq![OPEN]
    } else {
        seq![OPEN] + commaed(texts(fed).drop_last())
    }
}

/// The sum of the items' lengths.
pub open spec fn total_len(items: Seq<Seq<u8>>) -> nat
    decreases items.len(),
{
    if items.len() == 0 {
        0
    } else {
        total_len(items.drop_last()) + items.last().len()
    }
}

/// The number of commas between `n` messages.
pub open spec fn separators(n: nat) -> nat {
    if n == 0 {
        0
    } else {
        (n - 1) as nat
    }
}

/// Joining items is the same as putting a comma behind each but the last.
proof fn lemma_joined_commaed(items: Seq<Seq<u8>>)
    requires
        items.len() > 0,
    ensures
        joined(items) == commaed(items.drop_last()) + items.last(),
    decreases items.len(),
{
    if items.len() == 1 {
        assert(items.drop_last().len() == 0);
        assert(joined(items) =~= commaed(items.drop_last()) + items.last());
    } else {
        let front = items.drop_last();
        lemma_joined_commaed(front);
        assert(joined(items) =~= commaed(front) + items.last());
    }
}

/// Comma placement: beside the two brackets and the bytes of the messages
/// themselves, the array of `n` messages holds `n - 1` bytes, one comma
/// between each two neighbours, and none where there is no message.
pub proof fn lemma_separator_count(items: Seq<Seq<u8>>)
    ensures
        joined(items).len() == total_len(items) + separators(items.len()),
        array_text(items).len() == 2 + total_len(items) + separators(items.len()),
        items.len() == 0 ==> array_text(items) == seq![OPEN, CLOSE],
    decreases items.len(),
{
    if items.len() == 0 {
        assert(array_text(items) =~= seq![OPEN, CLOSE]);
    } else if items.len() == 1 {
        assert(total_len(items.drop_last()) == 0);
    } else {
        lemma_separator_count(items.drop_last());
    }
}

/// Where message `i` starts in the array of the items: behind the opening
/// bracket, the messages before it and one comma for each of them.
pub open spec fn start(items: Seq<Seq<u8>>, i: int) -> int
    decreases i,
{
    if i <= 0 {
        1
    } else {
        start(items, i - 1) + items[i - 1].len() + 1
    }
}

/// Each message starts behind the bracket and the commas before it.
proof fn lemma_start_bound(items: Seq<Seq<u8>>, i: int)
    requires
        0 <= i,
    ensures
        start(items, i) >= 1 + i,
    decreases i,
{
    if i > 0 {
        lemma_start_bound(items, i - 1);
    }
}

/// Where a message starts depends on the messages before it alone.
proof fn lemma_start_of_front(items: Seq<Seq<u8>>, i: int)
    requires
        0 <= i < items.len(),
    ensures
        start(items.drop_last(), i) == start(items, i),
    decreases i,
{
    if i > 0 {
        lemma_start_of_front(items, i - 1);
    }
}

/// Where each item stands among the joined items, and what stands beside it.
proof fn lemma_joined_layout(items: Seq<Seq<u8>>, i: int)
    requires
        0 <= i < items.len(),
    ensures
        0 <= start(items, i) - 1,
        start(items, i) - 1 + items[i].len() <= joined(items).len(),
        joined(items).subrange(start(items, i) - 1, start(items, i) - 1 + items[i].len())
            == items[i],
        i > 0 ==> joined(items)[start(items, i) - 2] == COMMA,
        i < items.len() - 1 ==> start(items, i) - 1 + items[i].len() < joined(items).len()
            && joined(items)[start(items, i) - 1 + items[i].len()] == COMMA,
        i == items.len() - 1 ==> start(items, i) - 1 + items[i].len() == joined(items).len(),
    decreases items.len(),
{
    let whole = joined(items);
    let at = start(items, i) - 1;
    lemma_start_bound(items, i);
    if items.len() == 1 {
        assert(whole.subrange(0, items[0].len() as int) =~= items[0]);
    } else {
        let front = items.drop_last();
        let head = joined(front);
        let last = items.len() - 1;
        assert(whole == head + seq![COMMA] + items.last());
        lemma_start_of_front(items, if i < last { i } else { i - 1 });
        if i < last {
            lemma_joined_layout(front, i);
            assert(front[i] == items[i]);
            assert(whole.subrange(at, at + items[i].len()) =~= head.subrange(
                at,
                at + items[i].len(),
            ));
            if i > 0 {
                assert(whole[at - 1] == head[at - 1]);
            }
            if i < last - 1 {
                assert(whole[at + items[i].len()] == head[at + items[i].len()]);
            }
        } else {
            lemma_joined_layout(front, i - 1);
            assert(front[i - 1] == items[i - 1]);
            assert(at == head.len() + 1);
            assert(whole.subrange(at, at + items[i].len()) =~= items[i]);
        }
    }
}

/// No message is dropped, doubled or moved: in the array of `items`, item
/// `i` stands at `start(items, i)`, whole and unchanged. Before the first
/// stands the opening bracket and behind the last the closing one, which
/// ends the array; between each two neighbours stands exactly one byte, a
/// comma.
pub proof fn lemma_array_layout(items: Seq<Seq<u8>>, i: int)
    requires
        0 <= i < items.len(),
    ensures
        1 <= start(items, i),
        start(items, i) + items[i].len() < array_text(items).len(),
        array_text(items).subrange(start(items, i), start(items, i) + items[i].len())
            == items[i],
        array_text(items)[start(items, i) - 1] == (if i == 0 {
            OPEN
        } else {
            COMMA
        }),
        array_text(items)[start(items, i) + items[i].len()] == (if i == items.len() - 1 {
            CLOSE
        } else {
            COMMA
        }),
        i < items.len() - 1 ==> start(items, i + 1) == start(items, i) + items[i].len() + 1,
        i == items.len() - 1 ==> array_text(items).len() == start(items, i) + items[i].len() + 1,
{
    lemma_joined_layout(items, i);
    lemma_start_bound(items, i);
    let whole = joined(items);
    let text = array_text(items);
    let at = start(items, i);
    assert(text == seq![OPEN] + whole + seq![CLOSE]);
    assert(text.subrange(at, at + items[i].len()) =~= whole.subrange(
        at - 1,
        at - 1 + items[i].len(),
    ));
    if i > 0 {
        assert(text[at - 1] == whole[at - 2]);
    }
    if i < items.len() - 1 {
        assert(text[at + items[i].len()] == whole[at - 1 + items[i].len()]);
    }
}

/// The output of a run depends on nothing but the messages of its pages:
/// two runs whose pages carry the same messages give the same bytes.
pub proof fn lemma_same_messages_same_output(first: Seq<Response>, second: Seq<Response>)
    requires
        first.len() == second.len(),
        forall|i: int| 0 <= i < first.len() ==> first[i].messages@ == second[i].messages@,
    ensures
        all_messages(first) == all_messages(second),
        exported(first) == exported(second),
    decreases first.len(),
{
    if first.len() > 0 {
        lemma_same_messages_same_output(first.drop_first(), second.drop_first());
    }
}

/// The messages of the pages from `k` on start with those of page `k`.
proof fn lemma_all_messages_from(pages: Seq<Response>, k: int)
    requires
        0 <= k < pages.len(),
    ensures
        all_messages(pages.subrange(k, pages.len() as int)) == pages[k].messages@ + all_messages(
            pages.subrange(k + 1, pages.len() as int),
        ),
{
    let rest = pages.subrange(k, pages.len() as int);
    assert(rest.drop_first() =~= pages.subrange(k + 1, pages.len() as int));
}

/// What a replayed run wrote and asked for.
pub struct Transcript {
    /// The bytes written to the output.
    pub output: Vec<u8>,
    /// The requests made, in order.
    pub requests: Vec<Request>,
}

/// Runs a whole export against recorded replies: `pages[0]` answers the
/// first request, each further page the request that the page before it
/// made necessary. A run that reaches a last page gives the array of all
/// messages in request order and one request per page, each with the
/// cursor of the reply before it. A run that ends in a reply of another
/// kind gives that reply's error.
pub fn replay(slack: &Slack, pages: Vec<Response>) -> (r: Result<Transcript, ExportError>)
    requires
        recorded(pages@),
    ensures
        match pages@.last().outcome() {
            Outcome::Refused(text) => r matches Err(ExportError::Api(given)) && given@ == text,
            Outcome::Inconsistent => r matches Err(ExportError::MissingCursor),
            _ => r matches Ok(transcript) && {
                &&& transcript.output@ == exported(pages@)
                &&& transcript.requests@.len() == pages@.len()
                &&& forall|i: int|
                    0 <= i < pages@.len() ==> slack.asks(
                        #[trigger] transcript.requests@[i],
                        cursor_before(pages@, i),
                    )
            },
        },
{
    let ghost all = all_messages(pages@);
    let ghost total = pages@.len() as int;
    let mut queue = queue_of(pages);
    let mut requests: Vec<Request> = Vec::new();
    requests.push(slack.chunk_request(None));
    let (mut emitter, mut output) = Emitter::start();
    proof {
        lemma_all_messages_from(pages@, 0);
        assert(pages@.subrange(0, total) =~= pages@);
    }
    let first = match queue.pop_front() {
        Some(page) => page,
        None => vstd::pervasive::unreached(),
    };
    let mut messages = match slack.messages(first) {
        Ok(messages) => messages,
        Err(error) => {
            return Err(error);
        },
    };
    let ghost mut fed: Seq<serde_json::Value> = Seq::empty();
    let ghost mut k: int = 1;
    assert(fed + messages.remaining() =~= messages.remaining());
    loop
        invariant
            recorded(pages@),
            total == pages@.len(),
            all == all_messages(pages@),
            1 <= k <= total,
            queue@ == pages@.subrange(k, total),
            messages.client() == slack,
            messages.cursor() == cursor_of(pages@[k - 1]),
            pages@[k - 1].outcome() is Last || pages@[k - 1].outcome() is More,
            fed + messages.remaining() + all_messages(pages@.subrange(k, total)) == all,
            emitter.pending() == (if fed.len() == 0 {
                None
            } else {
                Some(fed.last())
            }),
            output@ == streamed(fed),
            requests@.len() == k,
            forall|i: int|
                0 <= i < k ==> slack.asks(#[trigger] requests@[i], cursor_before(pages@, i)),
        decreases total - k, messages.remaining().len(),
    {
        let ghost remaining = messages.remaining();
        match messages.next() {
            Pull::Message(message) => {
                let ghost held = fed;
                let ghost written = output@;
                let mut bytes = match emitter.feed(Some(message)) {
                    Ok(bytes) => bytes,
                    Err(error) => {
                        return Err(error);
                    },
                };
                output.append(&mut bytes);
                proof {
                    fed = fed.push(message);
                    assert(fed + messages.remaining() =~= held + remaining);
                    assert(texts(fed).drop_last() =~= texts(held));
                    if held.len() > 0 {
                        assert(texts(held).last() == crate::json::json_text(held.last()));
                        assert(output@ =~= seq![OPEN] + commaed(texts(held)));
                    } else {
                        assert(output@ =~= written);
                    }
                }
            },
            Pull::Finished => {
                let ghost written = output@;
                let mut bytes = match emitter.feed(None) {
                    Ok(bytes) => bytes,
                    Err(error) => {
                        return Err(error);
                    },
                };
                output.append(&mut bytes);
                proof {
                    assert(k == total);
                    assert(pages@.subrange(k, total).len() == 0);
                    assert(fed =~= all);
                    if fed.len() > 0 {
                        lemma_joined_commaed(texts(fed));
                        assert(output@ =~= array_text(texts(fed)));
                    } else {
                        assert(texts(fed).len() == 0);
                        assert(output@ =~= array_text(texts(fed)));
                    }
                }
                return Ok(Transcript { output, requests });
            },
            Pull::Fetch(request) => {
                proof {
                    assert(k < total);
                    lemma_all_messages_from(pages@, k);
                    assert(pages@.subrange(k, total).drop_first() =~= pages@.subrange(
                        k + 1,
                        total,
                    ));
                }
                requests.push(request);
                let page = match queue.pop_front() {
                    Some(page) => page,
                    None => vstd::pervasive::unreached(),
                };
                assert(page == pages@[k]);
                match messages.supply(page) {
                    Ok(()) => {
                        proof {
                            assert(fed + messages.remaining() + all_messages(
                                pages@.subrange(k + 1, total),
                            ) =~= fed + remaining + all_messages(pages@.subrange(k, total)));
                            k = k + 1;
                        }
                    },
                    Err(error) => {
                        assert(k == total - 1);
                        return Err(error);
                    },
                }
            },
        }
    }
}

} // verus!
