//! The message sequence as a whole: what a caller gets who pulls until the
//! end and answers each request with the next reply.

use vstd::prelude::*;

use crate::export::all_messages;
use crate::export::cursor_of;
use crate::export::recorded;
use crate::response::Outcome;
use crate::response::Response;
use crate::slack::position_of;
use crate::slack::pull;
use crate::slack::Position;
use crate::slack::Step;

verus! {

/// How a drive ends.
pub enum End {
    /// A pull gave the end of the sequence.
    Finished,
    /// A reply was no valid page.
    Failed(Outcome),
    /// A request was made and no reply was left to answer it.
    Starved,
}

/// What a drive gives: the messages pulled, in order; the cursors of the
/// requests made, in order; how it ended, and where the sequence then stood.
pub struct Run {
    pub messages: Seq<serde_json::Value>,
    pub cursors: Seq<Seq<char>>,
    pub end: End,
    pub last: Position,
}

/// Pulls from `at` until the sequence ends or fails, answering each request
/// with the next of the `later` replies.
pub open spec fn run(at: Position, later: Seq<Response>) -> Run
    decreases later.len(), at.remaining.len(),
{
    if at.remaining.len() > 0 {
        let rest = run(pull(at).0, later);
        Run { messages: seq![at.remaining[0]] + rest.messages, ..rest }
    } else {
        match pull(at).1 {
            Step::Fetch(cursor) => if later.len() == 0 {
                Run { messages: Seq::empty(), cursors: seq![cursor], end: End::Starved, last: at }
            } else {
                match later[0].outcome() {
                    Outcome::Refused(text) => Run {
                        messages: Seq::empty(),
                        cursors: seq![cursor],
                        end: End::Failed(Outcome::Refused(text)),
                        last: at,
                    },
                    Outcome::Inconsistent => Run {
                        messages: Seq::empty(),
                        cursors: seq![cursor],
                        end: End::Failed(Outcome::Inconsistent),
                        last: at,
                    },
                    outcome => {
                        let rest = run(position_of(outcome), later.drop_first());
                        Run { cursors: seq![cursor] + rest.cursors, ..rest }
                    },
                }
            },
            _ => Run {
                messages: Seq::empty(),
                cursors: Seq::empty(),
                end: End::Finished,
                last: at,
            },
        }
    }
}

/// A whole drive: the first reply starts the sequence, the others answer
/// its requests.
pub open spec fn drive(pages: Seq<Response>) -> Run {
    match pages[0].outcome() {
        Outcome::Refused(text) => Run {
            messages: Seq::empty(),
            cursors: Seq::empty(),
            end: End::Failed(Outcome::Refused(text)),
            last: position_of(Outcome::Inconsistent),
        },
        Outcome::Inconsistent => Run {
            messages: Seq::empty(),
            cursors: Seq::empty(),
            end: End::Failed(Outcome::Inconsistent),
            last: position_of(Outcome::Inconsistent),
        },
        outcome => run(position_of(outcome), pages.drop_first()),
    }
}

/// The replies that are left answer the requests to come: none is left
/// after a last page, and else they lead on to a last page.
pub open spec fn answers(at: Position, later: Seq<Response>) -> bool {
    &&& at.cursor.is_some() <==> later.len() > 0
    &&& later.len() > 0 ==> recorded(later) && later.last().outcome() is Last
}

/// Driven against replies that lead on to a last page, the pulls hand out
/// the rest of the current page and then every message of every reply, in
/// request order, each once. The sequence then ends: one request was made
/// for each reply, carrying the cursor of the page before it, and a
/// further pull gives the end again and asks for nothing.
pub proof fn lemma_run_complete(at: Position, later: Seq<Response>)
    requires
        answers(at, later),
    ensures
        run(at, later).messages == at.remaining + all_messages(later),
        run(at, later).end == End::Finished,
        pull(run(at, later).last) == (run(at, later).last, Step::Finished),
        run(at, later).cursors.len() == later.len(),
        later.len() > 0 ==> Some(run(at, later).cursors[0]) == at.cursor,
        forall|i: int|
            1 <= i < later.len() ==> Some(#[trigger] run(at, later).cursors[i]) == cursor_of(
                later[i - 1],
            ),
    decreases later.len(), at.remaining.len(),
{
    if at.remaining.len() > 0 {
        let rest = run(pull(at).0, later);
        lemma_run_complete(pull(at).0, later);
        assert(seq![at.remaining[0]] + rest.messages =~= at.remaining + all_messages(later));
    } else if at.cursor.is_none() {
        assert(run(at, later).messages =~= at.remaining + all_messages(later));
    } else {
        let page = later[0];
        let tail = later.drop_first();
        let then = position_of(page.outcome());
        if later.len() > 1 {
            assert(cursor_of(page).is_some());
            assert(tail.last() == later.last());
            assert forall|i: int| 0 <= i < tail.len() - 1 implies cursor_of(
                #[trigger] tail[i],
            ).is_some() by {
                assert(tail[i] == later[i + 1]);
            }
        } else {
            assert(page == later.last());
        }
        assert(then.remaining == page.messages@);
        assert(then.cursor == cursor_of(page));
        lemma_run_complete(then, tail);
        let rest = run(then, tail);
        assert(run(at, later).messages == rest.messages);
        assert(run(at, later).cursors == seq![at.cursor.unwrap()] + rest.cursors);
        assert(rest.messages =~= at.remaining + all_messages(later));
        assert forall|i: int| 1 <= i < later.len() implies Some(
            #[trigger] run(at, later).cursors[i],
        ) == cursor_of(later[i - 1]) by {
            assert(run(at, later).cursors[i] == rest.cursors[i - 1]);
            if i > 1 {
                assert(tail[i - 2] == later[i - 1]);
            }
        }
    }
}

/// A drive over the replies of a run that ends with a last page hands out
/// exactly the messages of all pages, in request order: none dropped, none
/// twice, none moved. It ends after as many messages as the pages hold and
/// one further request for each page but the first, each with the cursor
/// that the page before it gave; after that a pull gives the end and asks
/// for nothing.
pub proof fn lemma_drive_complete(pages: Seq<Response>)
    requires
        recorded(pages),
        pages.last().outcome() is Last,
    ensures
        drive(pages).messages == all_messages(pages),
        drive(pages).end == End::Finished,
        pull(drive(pages).last) == (drive(pages).last, Step::Finished),
        drive(pages).cursors.len() == pages.len() - 1,
        forall|i: int|
            0 <= i < pages.len() - 1 ==> Some(#[trigger] drive(pages).cursors[i]) == cursor_of(
                pages[i],
            ),
{
    let first = pages[0];
    let later = pages.drop_first();
    let at = position_of(first.outcome());
    if pages.len() > 1 {
        assert(cursor_of(first).is_some());
        assert(later.last() == pages.last());
        assert forall|i: int| 0 <= i < later.len() - 1 implies cursor_of(
            #[trigger] later[i],
        ).is_some() by {
            assert(later[i] == pages[i + 1]);
        }
    } else {
        assert(first == pages.last());
    }
    assert(at.remaining == first.messages@);
    assert(at.cursor == cursor_of(first));
    lemma_run_complete(at, later);
    assert(drive(pages) == run(at, later));
    assert forall|i: int| 0 <= i < pages.len() - 1 implies Some(
        #[trigger] drive(pages).cursors[i],
    ) == cursor_of(pages[i]) by {
        if i > 0 {
            assert(later[i - 1] == pages[i]);
        }
    }
}

/// Two drives from the same place against replies that amount to the same
/// give the same: the same messages in the same order, the same requests,
/// and the same end or failure.
pub proof fn lemma_run_repeatable(at: Position, first: Seq<Response>, second: Seq<Response>)
    requires
        first.len() == second.len(),
        forall|i: int| 0 <= i < first.len() ==> first[i].outcome() == second[i].outcome(),
    ensures
        run(at, first) == run(at, second),
    decreases first.len(), at.remaining.len(),
{
    if at.remaining.len() > 0 {
        lemma_run_repeatable(pull(at).0, first, second);
    } else if at.cursor.is_some() && first.len() > 0 {
        assert(first[0].outcome() == second[0].outcome());
        assert forall|i: int| 0 <= i < first.drop_first().len() implies first.drop_first()[i].outcome()
            == second.drop_first()[i].outcome() by {
            assert(first.drop_first()[i] == first[i + 1]);
            assert(second.drop_first()[i] == second[i + 1]);
        }
        lemma_run_repeatable(position_of(first[0].outcome()), first.drop_first(), second.drop_first());
    }
}

/// Two whole drives against replies that amount to the same give the same.
pub proof fn lemma_drive_repeatable(first: Seq<Response>, second: Seq<Response>)
    requires
        first.len() == second.len(),
        first.len() > 0,
        forall|i: int| 0 <= i < first.len() ==> first[i].outcome() == second[i].outcome(),
    ensures
        drive(first) == drive(second),
{
    assert(first[0].outcome() == second[0].outcome());
    assert forall|i: int| 0 <= i < first.drop_first().len() implies first.drop_first()[i].outcome()
        == second.drop_first()[i].outcome() by {
        assert(first.drop_first()[i] == first[i + 1]);
        assert(second.drop_first()[i] == second[i + 1]);
    }
    lemma_run_repeatable(position_of(first[0].outcome()), first.drop_first(), second.drop_first());
}

} // verus!
