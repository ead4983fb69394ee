//! What holds of a pipeline of requests: the answers of the server reach
//! the slots of the requests they belong to, in the order of the requests,
//! whatever the order in which the caller reads them.

use crate::bolt::{
    classify, compacted, deliver, done_before, failure_before, fetched, fetched_past,
    fetched_row, holds_failure, parse_reply, pending, record_fetched, row_taken,
    summary_fetched, BoltError, Reply, Response, Session, Summary, SummaryKind,
};
use crate::chunk::{
    frame, lemma_deframe_at, lemma_deframe_bounds, lemma_deframe_extend, ChunkError,
};
use crate::codec::theorem_decode_encode_prefix;
use crate::cypher::{commit_fetched, drained, reset_fetched, rows_dropped, text_under, Cypher};
use crate::pack::{encodable, encode};
use crate::sig;
use crate::unpack::{avail, window};
use crate::value::{well_formed, Term};
use vstd::prelude::*;

verus! {

/// The message with which the server sends a reply.
pub open spec fn reply_message(reply: Reply) -> Term {
    match reply {
        Reply::Record(data) => Term::Structure {
            signature: sig::RECORD,
            fields: seq![Term::List(data)],
        },
        Reply::Summary(summary) => Term::Structure {
            signature: match summary.kind {
                SummaryKind::Success => sig::SUCCESS,
                SummaryKind::Ignored => sig::IGNORED,
                SummaryKind::Failure => sig::FAILURE,
            },
            fields: seq![Term::Dictionary(summary.metadata)],
        },
    }
}

/// A reply that can go over the wire: its message has a wire form, and no
/// dictionary in it names a key twice.
pub open spec fn sound(reply: Reply) -> bool {
    well_formed(reply_message(reply)) && encodable(reply_message(reply))
}

/// The replies as they stand on the wire: each as one framed message.
pub open spec fn wire_of(replies: Seq<Reply>) -> Seq<u8>
    decreases replies.len(),
{
    if replies.len() == 0 {
        Seq::empty()
    } else {
        frame(encode(reply_message(replies[0]))) + wire_of(replies.skip(1))
    }
}

/// The session after the replies have been delivered one after the other.
pub open spec fn delivered(s: Session, replies: Seq<Reply>) -> Session
    decreases replies.len(),
{
    if replies.len() == 0 {
        s
    } else {
        delivered(deliver(s, replies[0]), replies.skip(1))
    }
}

/// The number of summaries among the replies.
pub open spec fn summaries(replies: Seq<Reply>) -> nat
    decreases replies.len(),
{
    if replies.len() == 0 {
        0
    } else {
        (if replies[0] is Summary {
            1nat
        } else {
            0nat
        }) + summaries(replies.skip(1))
    }
}

/// What the server sends in answer to one request: rows, then a summary.
pub struct Exchange {
    pub rows: Seq<Seq<Term>>,
    pub summary: Summary,
}

/// The replies of one exchange, in the order in which they are sent.
pub open spec fn exchange_replies(x: Exchange) -> Seq<Reply> {
    Seq::new(x.rows.len(), |i: int| Reply::Record(x.rows[i])).push(Reply::Summary(x.summary))
}

/// The replies of the exchanges, one exchange after the other.
pub open spec fn replies_of(exchanges: Seq<Exchange>) -> Seq<Reply>
    decreases exchanges.len(),
{
    if exchanges.len() == 0 {
        Seq::empty()
    } else {
        exchange_replies(exchanges[0]) + replies_of(exchanges.skip(1))
    }
}

/// The session after the response that is being filled has taken a whole
/// exchange: its rows behind those that were there, and its summary.
pub open spec fn completed(s: Session, x: Exchange) -> Session {
    let slot = s.responses[s.cursor as int];
    Session {
        responses: s.responses.update(
            s.cursor as int,
            Response { detail: slot.detail + x.rows, summary: Some(x.summary), ..slot },
        ),
        cursor: s.cursor + 1,
        ..s
    }
}

/// The session after each of the exchanges has gone to its response.
pub open spec fn settled(s: Session, exchanges: Seq<Exchange>) -> Session
    decreases exchanges.len(),
{
    if exchanges.len() == 0 {
        s
    } else {
        settled(completed(s, exchanges[0]), exchanges.skip(1))
    }
}

/// The message of a reply is read as that reply.
pub proof fn lemma_parse_reply(reply: Reply)
    requires
        sound(reply),
    ensures
        parse_reply(encode(reply_message(reply))) == Ok::<_, BoltError>(reply),
{
    let message = reply_message(reply);
    theorem_decode_encode_prefix(message, Seq::empty());
    assert(encode(message) + Seq::<u8>::empty() =~= encode(message));
    assert(classify(message) == Ok::<_, BoltError>(reply));
}

/// One step of fetching on a session that has received a whole reply
/// delivers that reply.
pub proof fn lemma_fetch_reply(s: Session, reply: Reply)
    requires
        !s.defunct,
        sound(reply),
        s.cursor < s.responses.len(),
        avail(s.received, s.position, frame(encode(reply_message(reply))).len() as int),
        window(s.received, s.position, frame(encode(reply_message(reply))).len() as int) == frame(
            encode(reply_message(reply)),
        ),
    ensures
        fetched(s) == (
            deliver(
                Session {
                    position: s.position + frame(encode(reply_message(reply))).len(),
                    ..s
                },
                reply,
            ),
            Ok::<(), BoltError>(()),
        ),
        frame(encode(reply_message(reply))).len() >= 2,
{
    lemma_parse_reply(reply);
    lemma_deframe_at(encode(reply_message(reply)), s.received, s.position);
}

/// Delivering replies one after the other can be done in two parts.
pub proof fn lemma_delivered_concat(s: Session, a: Seq<Reply>, b: Seq<Reply>)
    ensures
        delivered(s, a + b) == delivered(delivered(s, a), b),
    decreases a.len(),
{
    if a.len() == 0 {
        assert(a + b =~= b);
    } else {
        assert((a + b)[0] == a[0]);
        assert((a + b).skip(1) =~= a.skip(1) + b);
        lemma_delivered_concat(deliver(s, a[0]), a.skip(1), b);
    }
}

/// Delivering rows adds them to the response that is being filled.
proof fn lemma_delivered_rows(s: Session, rows: Seq<Seq<Term>>)
    requires
        s.cursor < s.responses.len(),
    ensures
        delivered(s, Seq::new(rows.len(), |i: int| Reply::Record(rows[i]))) == (Session {
            responses: s.responses.update(
                s.cursor as int,
                Response {
                    detail: s.responses[s.cursor as int].detail + rows,
                    ..s.responses[s.cursor as int]
                },
            ),
            ..s
        }),
    decreases rows.len(),
{
    let replies = Seq::new(rows.len(), |i: int| Reply::Record(rows[i]));
    let slot = s.responses[s.cursor as int];
    if rows.len() == 0 {
        assert(slot.detail + rows =~= slot.detail);
        assert(s.responses.update(s.cursor as int, slot) =~= s.responses);
    } else {
        let t = deliver(s, replies[0]);
        let rest = rows.skip(1);
        assert(replies.skip(1) =~= Seq::new(rest.len(), |i: int| Reply::Record(rest[i])));
        lemma_delivered_rows(t, rest);
        assert(slot.detail.push(rows[0]) + rest =~= slot.detail + rows);
        assert(t.responses.update(
            t.cursor as int,
            Response { detail: t.responses[t.cursor as int].detail + rest, ..slot },
        ) =~= s.responses.update(
            s.cursor as int,
            Response { detail: slot.detail + rows, ..slot },
        ));
    }
}

/// Delivering the replies of an exchange completes the response that is
/// being filled.
pub proof fn lemma_delivered_exchange(s: Session, x: Exchange)
    requires
        s.cursor < s.responses.len(),
    ensures
        delivered(s, exchange_replies(x)) == completed(s, x),
{
    let rows = Seq::new(x.rows.len(), |i: int| Reply::Record(x.rows[i]));
    let end = seq![Reply::Summary(x.summary)];
    assert(exchange_replies(x) =~= rows + end);
    lemma_delivered_concat(s, rows, end);
    lemma_delivered_rows(s, x.rows);
    let t = delivered(s, rows);
    assert(end.skip(1) =~= Seq::<Reply>::empty());
    assert(delivered(deliver(t, end[0]), end.skip(1)) == deliver(t, end[0]));
    assert(delivered(t, end) == deliver(t, end[0]));
    assert(deliver(t, end[0]).responses =~= completed(s, x).responses);
}

/// Delivering the replies of the exchanges settles them.
pub proof fn lemma_delivered_settled(s: Session, exchanges: Seq<Exchange>)
    requires
        s.cursor + exchanges.len() <= s.responses.len(),
    ensures
        delivered(s, replies_of(exchanges)) == settled(s, exchanges),
    decreases exchanges.len(),
{
    if exchanges.len() > 0 {
        lemma_delivered_concat(s, exchange_replies(exchanges[0]), replies_of(exchanges.skip(1)));
        lemma_delivered_exchange(s, exchanges[0]);
        lemma_delivered_settled(completed(s, exchanges[0]), exchanges.skip(1));
    }
}

/// Every response gets the rows and the summary of its own exchange, and of
/// no other: the exchanges settle in the slots from the cursor on, one slot
/// each, in order, and no other slot changes.
pub proof fn theorem_buckets(s: Session, exchanges: Seq<Exchange>)
    requires
        s.cursor + exchanges.len() <= s.responses.len(),
    ensures
        settled(s, exchanges).cursor == s.cursor + exchanges.len(),
        settled(s, exchanges).responses.len() == s.responses.len(),
        settled(s, exchanges).responses_done == s.responses_done,
        settled(s, exchanges).received == s.received,
        settled(s, exchanges).position == s.position,
        settled(s, exchanges).sent == s.sent,
        settled(s, exchanges).requests == s.requests,
        settled(s, exchanges).defunct == s.defunct,
        forall|k: int|
            0 <= k < exchanges.len() ==> #[trigger] settled(s, exchanges).responses[s.cursor + k]
                == (Response {
                detail: s.responses[s.cursor + k].detail + exchanges[k].rows,
                summary: Some(exchanges[k].summary),
                ..s.responses[s.cursor + k]
            }),
        forall|j: int|
            0 <= j < s.responses.len() && !(s.cursor <= j < s.cursor + exchanges.len())
                ==> #[trigger] settled(s, exchanges).responses[j] == s.responses[j],
    decreases exchanges.len(),
{
    if exchanges.len() > 0 {
        let t = completed(s, exchanges[0]);
        let rest = exchanges.skip(1);
        theorem_buckets(t, rest);
        let end = settled(s, exchanges);
        assert forall|k: int| 0 <= k < exchanges.len() implies #[trigger] end.responses[s.cursor
            + k] == (Response {
            detail: s.responses[s.cursor + k].detail + exchanges[k].rows,
            summary: Some(exchanges[k].summary),
            ..s.responses[s.cursor + k]
        }) by {
            if k == 0 {
                assert(end.responses[s.cursor as int] == t.responses[s.cursor as int]);
            } else {
                assert(end.responses[t.cursor + (k - 1)] == (Response {
                    detail: t.responses[t.cursor + (k - 1)].detail + rest[k - 1].rows,
                    summary: Some(rest[k - 1].summary),
                    ..t.responses[t.cursor + (k - 1)]
                }));
            }
        }
        assert forall|j: int|
            0 <= j < s.responses.len() && !(s.cursor <= j < s.cursor
                + exchanges.len()) implies #[trigger] end.responses[j] == s.responses[j] by {
            assert(end.responses[j] == t.responses[j]);
        }
    }
}

/// Among replies that end with a summary there is a summary.
proof fn lemma_summaries_last(replies: Seq<Reply>)
    requires
        replies.len() > 0,
        replies.last() is Summary,
    ensures
        summaries(replies) >= 1,
    decreases replies.len(),
{
    if replies.len() > 1 {
        assert(replies.skip(1).last() == replies.last());
        lemma_summaries_last(replies.skip(1));
    }
}

/// Fetching until the cursor is past `index` reads exactly the replies that
/// have been received, where these end with the summary that takes the
/// cursor past `index`.
pub proof fn lemma_fetched_past(s: Session, replies: Seq<Reply>, index: int)
    requires
        !s.defunct,
        forall|i: int| 0 <= i < replies.len() ==> sound(#[trigger] replies[i]),
        replies.len() > 0 ==> replies.last() is Summary,
        s.cursor + summaries(replies) == index + 1,
        index < s.responses.len(),
        avail(s.received, s.position, wire_of(replies).len() as int),
        window(s.received, s.position, wire_of(replies).len() as int) == wire_of(replies),
    ensures
        fetched_past(s, index) == (
            delivered(Session { position: s.position + wire_of(replies).len(), ..s }, replies),
            Ok::<(), BoltError>(()),
        ),
    decreases replies.len(),
{
    if replies.len() == 0 {
        assert(s == Session { position: s.position + wire_of(replies).len(), ..s });
    } else {
        lemma_summaries_last(replies);
        let reply = replies[0];
        let rest = replies.skip(1);
        let first = frame(encode(reply_message(reply)));
        let all = wire_of(replies);
        let w = window(s.received, s.position, all.len() as int);
        assert(window(s.received, s.position, first.len() as int) =~= first) by {
            assert(window(s.received, s.position, first.len() as int) =~= w.subrange(
                0,
                first.len() as int,
            ));
            assert(all.subrange(0, first.len() as int) =~= first);
        }
        lemma_fetch_reply(s, reply);
        let read = Session { position: s.position + first.len(), ..s };
        let t = deliver(read, reply);
        assert(window(t.received, t.position, wire_of(rest).len() as int) =~= wire_of(rest)) by {
            assert(window(t.received, t.position, wire_of(rest).len() as int) =~= w.subrange(
                first.len() as int,
                all.len() as int,
            ));
            assert(all.subrange(first.len() as int, all.len() as int) =~= wire_of(rest));
        }
        if rest.len() > 0 {
            assert(rest.last() == replies.last());
        }
        assert forall|i: int| 0 <= i < rest.len() implies sound(#[trigger] rest[i]) by {
            assert(rest[i] == replies[i + 1]);
        }
        lemma_fetched_past(t, rest, index);
        let end = s.position + all.len();
        assert(Session { position: end, ..t } == deliver(Session { position: end, ..s }, reply));
    }
}

/// The replies of exchanges end with a summary, and hold as many summaries
/// as there are exchanges.
proof fn lemma_replies_of(exchanges: Seq<Exchange>)
    ensures
        summaries(replies_of(exchanges)) == exchanges.len(),
        exchanges.len() > 0 ==> replies_of(exchanges).len() > 0 && replies_of(
            exchanges,
        ).last() is Summary,
    decreases exchanges.len(),
{
    if exchanges.len() > 0 {
        let first = exchange_replies(exchanges[0]);
        let rest = replies_of(exchanges.skip(1));
        lemma_replies_of(exchanges.skip(1));
        lemma_summaries_concat(first, rest);
        lemma_summaries_exchange(exchanges[0]);
        if rest.len() > 0 {
            assert((first + rest).last() == rest.last());
        } else {
            assert(first + rest =~= first);
        }
    }
}

/// The summaries among two runs of replies add up.
proof fn lemma_summaries_concat(a: Seq<Reply>, b: Seq<Reply>)
    ensures
        summaries(a + b) == summaries(a) + summaries(b),
    decreases a.len(),
{
    if a.len() == 0 {
        assert(a + b =~= b);
    } else {
        assert((a + b)[0] == a[0]);
        assert((a + b).skip(1) =~= a.skip(1) + b);
        lemma_summaries_concat(a.skip(1), b);
    }
}

/// The replies of one exchange hold one summary, the last of them.
proof fn lemma_summaries_exchange(x: Exchange)
    ensures
        summaries(exchange_replies(x)) == 1,
        exchange_replies(x).last() is Summary,
{
    let rows = Seq::new(x.rows.len(), |i: int| Reply::Record(x.rows[i]));
    let end = seq![Reply::Summary(x.summary)];
    assert(exchange_replies(x) =~= rows + end);
    lemma_summaries_concat(rows, end);
    lemma_summaries_rows(x.rows);
    assert(end.skip(1) =~= Seq::<Reply>::empty());
    assert(summaries(end.skip(1)) == 0);
}

/// Among rows there is no summary.
proof fn lemma_summaries_rows(rows: Seq<Seq<Term>>)
    ensures
        summaries(Seq::new(rows.len(), |i: int| Reply::Record(rows[i]))) == 0,
    decreases rows.len(),
{
    let replies = Seq::new(rows.len(), |i: int| Reply::Record(rows[i]));
    if rows.len() > 0 {
        let rest = rows.skip(1);
        assert(replies.skip(1) =~= Seq::new(rest.len(), |i: int| Reply::Record(rest[i])));
        lemma_summaries_rows(rest);
    }
}

/// Requests are answered in the order in which they were packed, and every
/// answer reaches the slot of its own request.
///
/// Take a session that has slots for `n` requests from the cursor on, and
/// that has received, from its position on, the replies of `n` exchanges.
/// Fetching up to the last of these responses succeeds, reads all that was
/// received, and leaves the exchange of the `k`-th request in the `k`-th
/// of the slots, its rows behind those that were there: no row is lost and
/// none goes to another response. So whichever of the responses the caller
/// reads first, it finds the same in each.
pub proof fn theorem_response_ordering(s: Session, exchanges: Seq<Exchange>)
    requires
        !s.defunct,
        exchanges.len() > 0,
        s.cursor + exchanges.len() <= s.responses.len(),
        forall|i: int|
            0 <= i < replies_of(exchanges).len() ==> sound(#[trigger] replies_of(exchanges)[i]),
        avail(s.received, s.position, wire_of(replies_of(exchanges)).len() as int),
        window(s.received, s.position, wire_of(replies_of(exchanges)).len() as int) == wire_of(
            replies_of(exchanges),
        ),
    ensures
        fetched_past(s, s.cursor + exchanges.len() - 1) == (
            settled(
                Session { position: s.position + wire_of(replies_of(exchanges)).len(), ..s },
                exchanges,
            ),
            Ok::<(), BoltError>(()),
        ),
        forall|k: int|
            0 <= k < exchanges.len() ==> #[trigger] fetched_past(
                s,
                s.cursor + exchanges.len() - 1,
            ).0.responses[s.cursor + k] == (Response {
                detail: s.responses[s.cursor + k].detail + exchanges[k].rows,
                summary: Some(exchanges[k].summary),
                ..s.responses[s.cursor + k]
            }),
{
    let replies = replies_of(exchanges);
    let index = s.cursor + exchanges.len() - 1;
    let read = Session { position: s.position + wire_of(replies).len(), ..s };
    lemma_replies_of(exchanges);
    lemma_fetched_past(s, replies, index);
    lemma_delivered_settled(read, exchanges);
    theorem_buckets(read, exchanges);
}

/// Compaction renumbers nothing: a response that is still in the queue is
/// the one that was there under the same identifier, the cursor stands
/// before the same response, and what has left the queue was done.
pub proof fn theorem_compaction(s: Session)
    requires
        s.cursor <= s.responses.len(),
    ensures
        compacted(s).responses_done + compacted(s).responses.len() == s.responses_done
            + s.responses.len(),
        compacted(s).responses_done + compacted(s).cursor == s.responses_done + s.cursor,
        compacted(s).responses_done >= s.responses_done,
        compacted(s).cursor <= compacted(s).responses.len(),
        forall|id: int| #[trigger]
            pending(compacted(s), id) ==> pending(s, id) && compacted(s).responses[id - compacted(
                s,
            ).responses_done] == s.responses[id - s.responses_done],
        forall|id: int|
            s.responses_done <= id < compacted(s).responses_done ==> (#[trigger] s.responses[id
                - s.responses_done]).done,
    decreases s.responses.len(),
{
    if s.cursor > 0 && s.responses.len() > 0 && s.responses[0].done {
        let t = Session {
            responses: s.responses.skip(1),
            responses_done: s.responses_done + 1,
            cursor: (s.cursor - 1) as nat,
            ..s
        };
        theorem_compaction(t);
        assert forall|id: int| #[trigger] pending(compacted(s), id) implies pending(s, id)
            && compacted(s).responses[id - compacted(s).responses_done] == s.responses[id
            - s.responses_done] by {
            assert(pending(compacted(t), id));
            assert(t.responses[id - t.responses_done] == s.responses[id - s.responses_done]);
        }
        assert forall|id: int|
            s.responses_done <= id < compacted(s).responses_done implies (#[trigger] s.responses[id
                - s.responses_done]).done by {
            if id > s.responses_done {
                assert(t.responses[id - t.responses_done] == s.responses[id - s.responses_done]);
            }
        }
    }
}

/// The response that is found to hold a failure holds one.
proof fn lemma_failure_before(responses: Seq<Response>, index: int)
    ensures
        -1 <= failure_before(responses, index) < responses.len(),
        failure_before(responses, index) >= 0 ==> holds_failure(
            responses[failure_before(responses, index)],
        ),
    decreases index,
{
    if !(index <= 0 || index > responses.len()) && !holds_failure(responses[index - 1]) {
        lemma_failure_before(responses, index - 1);
    }
}

/// After a commit the session's bookmark is the one that the summary of the
/// commit holds, and a summary that is handed out never says that the
/// commit was skipped.
pub proof fn theorem_commit_bookmark(c: Cypher, body: int)
    ensures
        commit_fetched(c, body).1 matches Ok(Some(summary)) ==> summary.kind
            != SummaryKind::Ignored,
        commit_fetched(c, body).1 matches Ok(Some(summary)) ==> (summary.kind
            == SummaryKind::Success ==> commit_fetched(c, body).0.bookmark == text_under(
            summary.metadata,
            "bookmark"@,
        )),
        commit_fetched(c, body).1 matches Ok(summary) && !(summary matches Some(x) && x.kind
            == SummaryKind::Success) ==> commit_fetched(c, body).0.bookmark is None,
{
    let (t, r) = summary_fetched(c.bolt, body);
    lemma_failure_before(t.responses, body - t.responses_done);
}

/// What one step of fetching leaves as it is.
proof fn lemma_fetched(s: Session)
    requires
        s.cursor <= s.responses.len(),
    ensures
        fetched(s).0.responses.len() == s.responses.len(),
        fetched(s).0.responses_done == s.responses_done,
        fetched(s).0.cursor <= fetched(s).0.responses.len(),
        fetched(s).0.received == s.received,
        fetched(s).1 is Ok ==> s.position < fetched(s).0.position <= s.received.len(),
        fetched(s).0 == s || s.position < fetched(s).0.position <= s.received.len(),
{
    lemma_deframe_bounds(s.received, s.position, Seq::empty());
}

/// Fetching for a row ends with a row in the response or with the cursor
/// past it.
proof fn lemma_fetched_row(s: Session, index: int)
    requires
        0 <= index < s.responses.len(),
        s.cursor <= s.responses.len(),
    ensures
        fetched_row(s, index).0.responses.len() == s.responses.len(),
        fetched_row(s, index).0.responses_done == s.responses_done,
        fetched_row(s, index).0.cursor <= s.responses.len(),
        fetched_row(s, index).1 is Ok ==> fetched_row(s, index).0.responses[index].detail.len() > 0
            || fetched_row(s, index).0.cursor > index,
    decreases s.received.len() - s.position,
{
    if !(s.responses[index].detail.len() > 0 || s.cursor > index) {
        lemma_fetched(s);
        let (t, r) = fetched(s);
        if r is Ok && t.received == s.received && s.position < t.position <= t.received.len() {
            lemma_fetched_row(t, index);
        }
    }
}

/// Fetching past a response leaves the queue as long as it was.
proof fn lemma_fetched_past_keeps(s: Session, index: int)
    requires
        s.cursor <= s.responses.len(),
    ensures
        fetched_past(s, index).0.responses.len() == s.responses.len(),
        fetched_past(s, index).0.responses_done == s.responses_done,
        fetched_past(s, index).0.cursor <= s.responses.len(),
        fetched_past(s, index).1 is Ok ==> fetched_past(s, index).0.cursor > index,
        s.cursor > index ==> fetched_past(s, index).0 == s,
    decreases s.received.len() - s.position,
{
    if s.cursor <= index {
        lemma_fetched(s);
        let (t, r) = fetched(s);
        if r is Ok && t.received == s.received && s.position < t.position <= t.received.len() {
            lemma_fetched_past_keeps(t, index);
        }
    }
}

/// Dropping the rows of a response ends with no row in it and the cursor
/// past it.
proof fn lemma_rows_dropped(s: Session, body: int)
    requires
        pending(s, body),
        s.cursor <= s.responses.len(),
    ensures
        rows_dropped(s, body).0.responses.len() == s.responses.len(),
        rows_dropped(s, body).0.responses_done == s.responses_done,
        rows_dropped(s, body).0.cursor <= s.responses.len(),
        rows_dropped(s, body).1 is Ok ==> rows_dropped(s, body).0.responses[body
            - s.responses_done].detail.len() == 0 && rows_dropped(s, body).0.cursor > body
            - s.responses_done,
    decreases
        s.received.len() - s.position,
        (if 0 <= body - s.responses_done < s.responses.len() {
            s.responses[body - s.responses_done].detail.len()
        } else {
            0
        }),
{
    let index = body - s.responses_done;
    lemma_fetched_row(s, index);
    let (t, r) = record_fetched(s, body);
    match r {
        Ok(Some(_)) => {
            if row_taken(s, t, body) {
                lemma_rows_dropped(t, body);
            } else {
                let u = fetched_row(s, index).0;
                assert(t.position == u.position);
                assert(t.received == u.received);
                lemma_fetched_row_progress(s, index);
            }
        },
        _ => {},
    }
}

/// Fetching for a row reads on, or changes nothing.
proof fn lemma_fetched_row_progress(s: Session, index: int)
    requires
        0 <= index < s.responses.len(),
        s.cursor <= s.responses.len(),
    ensures
        fetched_row(s, index).0.received == s.received,
        fetched_row(s, index).0 == s || s.position < fetched_row(s, index).0.position
            <= s.received.len(),
    decreases s.received.len() - s.position,
{
    if !(s.responses[index].detail.len() > 0 || s.cursor > index) {
        lemma_fetched(s);
        let (t, r) = fetched(s);
        if r is Ok && t.received == s.received && s.position < t.position <= t.received.len() {
            lemma_fetched_row_progress(t, index);
        }
    }
}

/// A result that was drained holds nothing more: if its response is still
/// in the queue, the response has no row and no summary and counts as done,
/// and the cursor is past it, so that what the server sends next goes to a
/// later request.
pub proof fn theorem_drained(s: Session, body: int)
    requires
        pending(s, body),
        s.cursor <= s.responses.len(),
        drained(s, body).1 is Ok,
    ensures
        drained(s, body).0.responses_done + drained(s, body).0.cursor > body,
        pending(drained(s, body).0, body) ==> (drained(s, body).0.responses[body - drained(
            s,
            body,
        ).0.responses_done] == Response {
            detail: Seq::empty(),
            summary: None,
            done: true,
            ..rows_dropped(s, body).0.responses[body - s.responses_done]
        }),
{
    let index = body - s.responses_done;
    lemma_rows_dropped(s, body);
    let u = rows_dropped(s, body).0;
    lemma_fetched_past_keeps(u, index);
    let (t, r) = summary_fetched(u, body);
    assert(u.responses[index].detail =~= Seq::empty());
    theorem_compaction(t);
    let c = compacted(t);
    let end = drained(s, body).0;
    if pending(end, body) {
        assert(pending(c, body));
        assert(c.responses[body - c.responses_done] == t.responses[index]);
        assert(end.responses[body - end.responses_done] == c.responses[body - c.responses_done]);
    }
}

/// Responses that are done and that the cursor has passed leave the queue.
proof fn lemma_compacted_drops(s: Session, k: int)
    requires
        0 <= k < s.cursor <= s.responses.len(),
        forall|i: int| 0 <= i <= k ==> (#[trigger] s.responses[i]).done,
    ensures
        compacted(s).responses_done >= s.responses_done + k + 1,
    decreases k,
{
    let t = Session {
        responses: s.responses.skip(1),
        responses_done: s.responses_done + 1,
        cursor: (s.cursor - 1) as nat,
        ..s
    };
    assert(s.responses[0].done);
    if k == 0 {
        theorem_compaction(t);
    } else {
        assert forall|i: int| 0 <= i <= k - 1 implies (#[trigger] t.responses[i]).done by {
            assert(t.responses[i] == s.responses[i + 1]);
        }
        lemma_compacted_drops(t, k - 1);
    }
}

/// Once the answer to a reset has been read, nothing that was pending
/// before the reset, nor the reset itself, is left in the queue.
pub proof fn theorem_reset(s: Session, id: int)
    requires
        pending(s, id),
        s.cursor <= s.responses.len(),
        reset_fetched(s, id).1 is Ok,
    ensures
        reset_fetched(s, id).0.responses_done > id,
        forall|other: int| other <= id ==> !pending(reset_fetched(s, id).0, other),
{
    let index = id - s.responses_done;
    lemma_fetched_past_keeps(s, index);
    let (t, r) = summary_fetched(s, id);
    let u = done_before(t, index);
    assert forall|i: int| 0 <= i <= index implies (#[trigger] u.responses[i]).done by {}
    lemma_compacted_drops(u, index);
}

/// The session after more bytes have arrived.
pub open spec fn fed(s: Session, more: Seq<u8>) -> Session {
    Session { received: s.received + more, ..s }
}

/// A step of fetching that found a whole message does the same when more
/// bytes have arrived behind the message.
pub proof fn lemma_fetched_fed(s: Session, more: Seq<u8>)
    requires
        fetched(s).1 != Err::<(), _>(BoltError::Socket(ChunkError::UnexpectedEof)),
    ensures
        fetched(fed(s, more)) == (fed(fetched(s).0, more), fetched(s).1),
{
    if !s.defunct {
        lemma_deframe_extend(s.received, more, s.position, Seq::empty());
    }
}

/// It makes no difference in how many pieces the answers of the server
/// arrive. Fetching that stopped because too little had been received, and
/// that is taken up again when more has arrived, ends as fetching would have
/// ended had all of it been there from the start.
pub proof fn theorem_fetch_resumed(s: Session, more: Seq<u8>, index: int)
    requires
        s.cursor <= s.responses.len(),
        fetched_past(s, index).1 == Err::<(), _>(BoltError::Socket(ChunkError::UnexpectedEof)),
    ensures
        fetched_past(fed(fetched_past(s, index).0, more), index) == fetched_past(
            fed(s, more),
            index,
        ),
    decreases s.received.len() - s.position,
{
    if s.cursor <= index {
        lemma_fetched(s);
        let (t, r) = fetched(s);
        if r == Err::<(), _>(BoltError::Socket(ChunkError::UnexpectedEof)) {
            assert(t == s);
        } else {
            lemma_fetched_fed(s, more);
            lemma_fetched(fed(s, more));
            assert(r is Ok);
            theorem_fetch_resumed(t, more, index);
        }
    }
}

} // verus!
