//! Statements, transactions and bookmarks on top of a Bolt session.
//!
//! Every operation that needs an answer from the server comes in two steps.
//! The first packs the requests and queues them for sending; the second,
//! whose name begins with `fetch`, reads the answer. Between the two the
//! caller moves bytes: it sends what `take_sent` hands out and feeds what
//! arrives. A `fetch` step that finds too little received fails with
//! `Socket(UnexpectedEof)` and can be called again when more has arrived.

use crate::bolt::{
    bare_message, compacted, done_before, failure_fetched, flushed, init_message,
    lemma_run_message, opened, record_fetched, room, row_taken, run_message, summary_fetched,
    summary_view, with_request, with_slot, BoltError, BoltStream, BoltSummary, ProtocolError,
    Session, Summary, SummaryKind,
};
use crate::bytes::be32_value;
use crate::pack::encodable;
use crate::sig;
use crate::value::{entries_of, get, lemma_view, lookup, CodecError, Data, Term, Value};
use vstd::prelude::*;
use vstd::string::StringExecFns;
use vstd::utf8::{encode_utf8, is_ascii_chars, is_ascii_chars_encode_utf8};

verus! {

/// What a failed or skipped request leaves in place of a result: the
/// metadata of the server's answer.
pub type Answer<T> = Result<T, Vec<(String, Value)>>;

/// The two responses to a statement: that to `RUN`, which names the fields,
/// and that to `PULL_ALL`, which holds the rows.
#[derive(Clone, Copy, Debug, PartialEq, Eq, Structural)]
pub struct Cursor {
    head: usize,
    body: usize,
}

impl Cursor {
    /// The identifier of the response to `RUN`.
    pub fn head(&self) -> (id: usize)
        ensures
            id == self.head_id(),
    {
        self.head
    }

    /// The identifier of the response to `PULL_ALL`.
    pub fn body(&self) -> (id: usize)
        ensures
            id == self.body_id(),
    {
        self.body
    }

    /// The identifier of the response to `RUN`.
    pub closed spec fn head_id(&self) -> int {
        self.head as int
    }

    /// The identifier of the response to `PULL_ALL`.
    pub closed spec fn body_id(&self) -> int {
        self.body as int
    }
}

/// A statement that the server accepted: the metadata of its header and the
/// identifier of the response that holds its rows.
#[derive(Debug, PartialEq, Eq)]
pub struct StatementResult {
    header: Vec<(String, Value)>,
    body: usize,
}

impl StatementResult {
    /// The metadata of the header.
    pub closed spec fn header(&self) -> Seq<(Seq<char>, Term)> {
        entries_of(self.header@)
    }

    /// The identifier of the response that holds the rows.
    pub closed spec fn body_id(&self) -> int {
        self.body as int
    }

    /// The names of the fields, as the header gives them under `fields`;
    /// `None` where the header has no such entry.
    pub fn keys(&self) -> (out: Option<&Value>)
        ensures
            match out {
                Some(v) => lookup(self.header(), "fields"@) == Some(v@),
                None => lookup(self.header(), "fields"@) is None,
            },
    {
        get(&self.header, "fields")
    }
}

/// The outcome of a commit.
#[derive(Debug, PartialEq, Eq)]
pub struct CommitResult {
    bookmark: Option<String>,
}

/// The text of a string that may not be there.
pub open spec fn text_view(text: Option<String>) -> Option<Seq<char>> {
    match text {
        Some(s) => Some(s@),
        None => None,
    }
}

/// The text of a string slice that may not be there.
pub open spec fn text_of_str(text: Option<&str>) -> Option<Seq<char>> {
    match text {
        Some(s) => Some(s@),
        None => None,
    }
}

impl CommitResult {
    /// A commit that returned the given bookmark.
    pub fn new(bookmark: Option<String>) -> (result: CommitResult)
        ensures
            result.bookmark_text() == text_view(bookmark),
    {
        CommitResult { bookmark }
    }

    /// The bookmark that the commit returned.
    pub closed spec fn bookmark_text(&self) -> Option<Seq<char>> {
        text_view(self.bookmark)
    }

    /// The bookmark that the commit returned, if it returned one.
    pub fn bookmark(&self) -> (out: Option<&str>)
        ensures
            match out {
                Some(text) => self.bookmark_text() == Some(text@),
                None => self.bookmark_text() is None,
            },
    {
        match &self.bookmark {
            Some(bookmark) => Some(bookmark.as_str()),
            None => None,
        }
    }
}

/// The string that a dictionary holds under `key`, if it holds one.
pub open spec fn text_under(metadata: Seq<(Seq<char>, Term)>, key: Seq<char>) -> Option<
    Seq<char>,
> {
    match lookup(metadata, key) {
        Some(Term::String(s)) => Some(s),
        _ => None,
    }
}

/// The string that a dictionary holds under `key`, if it holds one.
pub fn text_of(metadata: &Vec<(String, Value)>, key: &str) -> (out: Option<String>)
    ensures
        text_view(out) == text_under(entries_of(metadata@), key@),
{
    match get(metadata, key) {
        Some(value) => match value {
            Value::String(s) => Some(s.clone()),
            _ => None,
        },
        None => None,
    }
}

/// The bookmark that the summary of a commit holds: the string under
/// `bookmark` in the metadata of a success.
pub open spec fn bookmark_of(summary: Option<Summary>) -> Option<Seq<char>> {
    match summary {
        Some(s) => if s.kind == SummaryKind::Success {
            text_under(s.metadata, "bookmark"@)
        } else {
            None
        },
        None => None,
    }
}

/// The name under which this driver introduces itself to the server.
pub open spec fn user_agent() -> Seq<char> {
    "rusty-bolt/0.1.0"@
}

/// The parameters of `BEGIN`: the bookmark to wait for, if there is one.
pub open spec fn begin_parameters(bookmark: Option<Seq<char>>) -> Term {
    match bookmark {
        Some(b) => Term::Dictionary(seq![("bookmark"@, Term::String(b))]),
        None => Term::Dictionary(Seq::empty()),
    }
}

/// The session after a statement and the message that follows it have been
/// packed and given their two slots.
pub open spec fn with_statement(
    s: Session,
    statement: Seq<char>,
    parameters: Term,
    follow: u8,
    first_ignored: bool,
    second_ignored: bool,
) -> Session {
    with_slot(
        with_slot(
            with_request(
                with_request(s, run_message(statement, parameters)),
                bare_message(follow),
            ),
            first_ignored,
        ),
        second_ignored,
    )
}

/// The session after a failure has been acknowledged: `ACK_FAILURE` is
/// packed with a slot that nobody reads, and sent.
pub open spec fn acknowledged(s: Session) -> Session {
    flushed(with_slot(with_request(s, bare_message(sig::ACK_FAILURE)), true))
}

/// The mathematical content of a [`CypherStream`].
pub struct Cypher {
    pub bolt: Session,
    pub server_version: Option<Seq<char>>,
    pub bookmark: Option<Seq<char>>,
}

/// Reading the answer to `INIT`: the session afterwards, and the outcome.
/// A success gives the server's version; a failure gives its metadata; a
/// skipped `INIT` breaks the protocol and puts the session out of use.
pub open spec fn init_fetched(c: Cypher) -> (
    Cypher,
    Result<Result<(), Seq<(Seq<char>, Term)>>, BoltError>,
) {
    let (s, r) = summary_fetched(c.bolt, 0);
    match r {
        Err(e) => (Cypher { bolt: s, ..c }, Err(e)),
        Ok(None) => (Cypher { bolt: compacted(s), ..c }, Err(BoltError::NoSummary)),
        Ok(Some(summary)) => match summary.kind {
            SummaryKind::Success => (
                Cypher {
                    bolt: compacted(s),
                    server_version: text_under(summary.metadata, "server"@),
                    ..c
                },
                Ok(Ok(())),
            ),
            SummaryKind::Ignored => (
                Cypher { bolt: Session { defunct: true, ..compacted(s) }, ..c },
                Err(BoltError::Protocol(ProtocolError::InitIgnored)),
            ),
            SummaryKind::Failure => (
                Cypher { bolt: compacted(s), ..c },
                Ok(Err(summary.metadata)),
            ),
        },
    }
}

/// Reading the answer to `RUN`: the session afterwards, and the header of a
/// success or the metadata of the failure. A failure is acknowledged at once.
pub open spec fn header_fetched(s: Session, head: int) -> (
    Session,
    Result<Result<Seq<(Seq<char>, Term)>, Seq<(Seq<char>, Term)>>, BoltError>,
) {
    let (t, r) = summary_fetched(s, head);
    match r {
        Err(e) => (t, Err(e)),
        Ok(None) => (compacted(t), Err(BoltError::NoSummary)),
        Ok(Some(summary)) => match summary.kind {
            SummaryKind::Success => (compacted(t), Ok(Ok(summary.metadata))),
            SummaryKind::Ignored => (compacted(t), Ok(Err(summary.metadata))),
            SummaryKind::Failure => (acknowledged(compacted(t)), Ok(Err(summary.metadata))),
        },
    }
}

/// The session after a summary has been dealt with: the responses that are
/// done leave the queue, and a failure is acknowledged.
pub open spec fn tidied(s: Session, summary: Option<Summary>) -> Session {
    if summary matches Some(x) && x.kind == SummaryKind::Failure {
        acknowledged(compacted(s))
    } else {
        compacted(s)
    }
}

/// Reading the summary of a result: the session afterwards, and the summary.
/// A failure is acknowledged at once.
pub open spec fn footer_fetched(s: Session, body: int) -> (
    Session,
    Result<Option<Summary>, BoltError>,
) {
    let (t, r) = summary_fetched(s, body);
    match r {
        Err(e) => (t, Err(e)),
        Ok(summary) => (tidied(t, summary), Ok(summary)),
    }
}

/// Reading the answer to a commit: the session afterwards, and the summary.
/// The bookmark of a success becomes the session's bookmark, and any other
/// answer leaves the session without one. In place of an answer that says
/// the commit was skipped, the failure that caused this is handed out. A
/// failure is acknowledged at once.
pub open spec fn commit_fetched(c: Cypher, body: int) -> (
    Cypher,
    Result<Option<Summary>, BoltError>,
) {
    let (t, r) = summary_fetched(c.bolt, body);
    match r {
        Err(e) => (Cypher { bolt: t, ..c }, Err(e)),
        Ok(summary) => if summary matches Some(x) && x.kind == SummaryKind::Ignored {
            let (u, failure) = failure_fetched(t, body);
            (Cypher { bolt: tidied(u, failure), bookmark: None, ..c }, Ok(failure))
        } else {
            (Cypher { bolt: tidied(t, summary), bookmark: bookmark_of(summary), ..c }, Ok(summary))
        },
    }
}

/// Reading and dropping the answer to a request: the session afterwards,
/// and whether it could be read. A failure is acknowledged at once.
pub open spec fn discarded(s: Session, id: int) -> (Session, Result<(), BoltError>) {
    let (t, r) = summary_fetched(s, id);
    match r {
        Err(e) => (t, Err(e)),
        Ok(summary) => (tidied(t, summary), Ok(())),
    }
}

/// Reading the answer to a reset: the session afterwards, and whether the
/// answer could be read. Once it is read, every response before it is given
/// up, whatever it holds.
pub open spec fn reset_fetched(s: Session, id: int) -> (Session, Result<(), BoltError>) {
    let (t, r) = summary_fetched(s, id);
    match r {
        Err(e) => (t, Err(e)),
        Ok(summary) => (tidied(done_before(t, id - s.responses_done), summary), Ok(())),
    }
}

/// Dropping the rows of a result that are left: the session afterwards, and
/// whether all went well. Rows are handed out, and dropped, until there is
/// none left.
pub open spec fn rows_dropped(s: Session, body: int) -> (Session, Result<(), BoltError>)
    decreases
        s.received.len() - s.position,
        (if 0 <= body - s.responses_done < s.responses.len() {
            s.responses[body - s.responses_done].detail.len()
        } else {
            0
        }),
{
    let (t, r) = record_fetched(s, body);
    match r {
        Err(e) => (t, Err(e)),
        Ok(None) => (t, Ok(())),
        Ok(Some(_)) => if row_taken(s, t, body) {
            rows_dropped(t, body)
        } else {
            (t, Ok(()))
        },
    }
}

/// Draining a result: the rows that are left are dropped, then the summary
/// is read as by [`footer_fetched`].
pub open spec fn drained(s: Session, body: int) -> (Session, Result<Option<Summary>, BoltError>) {
    let (t, r) = rows_dropped(s, body);
    match r {
        Err(e) => (t, Err(e)),
        Ok(()) => footer_fetched(t, body),
    }
}

/// Whether a summary is that of a failure.
pub fn is_failure(summary: &Option<BoltSummary>) -> (failed: bool)
    ensures
        failed == (summary_view(*summary) matches Some(x) && x.kind == SummaryKind::Failure),
{
    match summary {
        Some(BoltSummary::Failure(_)) => true,
        _ => false,
    }
}

/// A keyword of plain letters has a wire form.
pub proof fn lemma_plain_text(text: Seq<char>)
    requires
        is_ascii_chars(text),
        text.len() < 0x1_0000_0000,
    ensures
        encodable(Term::String(text)),
        encode_utf8(text).len() == text.len(),
{
    is_ascii_chars_encode_utf8(text);
}

/// A session that runs statements, with the server's version and the
/// bookmark of the last commit.
pub struct CypherStream {
    bolt: BoltStream,
    server_version: Option<String>,
    bookmark: Option<String>,
}

impl View for CypherStream {
    type V = Cypher;

    closed spec fn view(&self) -> Cypher {
        Cypher {
            bolt: self.bolt@,
            server_version: text_view(self.server_version),
            bookmark: text_view(self.bookmark),
        }
    }
}

impl CypherStream {
    /// What holds of every session.
    pub closed spec fn wf(&self) -> bool {
        self.bolt.wf()
    }

    /// In every session the cursor is within the queue and the identifiers
    /// of the queued responses are machine numbers.
    pub proof fn lemma_wf(&self)
        requires
            self.wf(),
        ensures
            self@.bolt.cursor <= self@.bolt.responses.len(),
            self@.bolt.responses_done + self@.bolt.responses.len() <= usize::MAX,
    {
        self.bolt.lemma_wf();
    }

    /// Opens a session from the server's answer to the handshake, and packs
    /// and queues the `INIT` message with the given credentials. The answer
    /// to it is read by [`CypherStream::fetch_init`].
    pub fn connect(reply: &[u8], user: &str, password: &str) -> (r: Result<CypherStream, BoltError>)
        ensures
            match r {
                Ok(c) => c.wf() && reply.len() >= 4 && be32_value(reply@) != 0 && encodable(
                    init_message(user_agent(), user@, password@),
                ) && c@ == (Cypher {
                    bolt: flushed(
                        with_slot(
                            with_request(
                                opened(reply@),
                                init_message(user_agent(), user@, password@),
                            ),
                            false,
                        ),
                    ),
                    server_version: None,
                    bookmark: None,
                }),
                Err(e) => if reply.len() < 4 {
                    e matches BoltError::Handshake(text) && text@ == "Error on read"@
                } else if be32_value(reply@) == 0 {
                    e == BoltError::HandshakeRejected
                } else {
                    e == BoltError::Codec(CodecError::EncodeTooLarge) && !encodable(
                        init_message(user_agent(), user@, password@),
                    )
                },
            },
    {
        let mut bolt = match BoltStream::connect(reply) {
            Ok(bolt) => bolt,
            Err(e) => {
                return Err(e);
            },
        };
        match bolt.init("rusty-bolt/0.1.0", user, password) {
            Ok(()) => {},
            Err(e) => {
                return Err(e);
            },
        }
        let _ = bolt.collect_response();
        bolt.send();
        Ok(CypherStream { bolt, server_version: None, bookmark: None })
    }

    /// Reads the answer to `INIT`.
    pub fn fetch_init(&mut self) -> (r: Result<Answer<()>, BoltError>)
        requires
            old(self).wf(),
        ensures
            final(self).wf(),
            final(self)@ == init_fetched(old(self)@).0,
            match r {
                Ok(Ok(())) => init_fetched(old(self)@).1 == Ok::<_, BoltError>(
                    Ok::<_, Seq<(Seq<char>, Term)>>(()),
                ),
                Ok(Err(metadata)) => init_fetched(old(self)@).1 == Ok::<_, BoltError>(
                    Err::<(), _>(entries_of(metadata@)),
                ),
                Err(e) => init_fetched(old(self)@).1 == Err::<
                    Result<(), Seq<(Seq<char>, Term)>>,
                    _,
                >(e),
            },
    {
        let summary = match self.bolt.fetch_summary(0) {
            Ok(summary) => summary,
            Err(e) => {
                return Err(e);
            },
        };
        self.bolt.compact_responses();
        match summary {
            None => Err(BoltError::NoSummary),
            Some(BoltSummary::Success(metadata)) => {
                self.server_version = text_of(&metadata, "server");
                Ok(Ok(()))
            },
            Some(BoltSummary::Ignored(_)) => {
                self.bolt.abandon();
                Err(BoltError::Protocol(ProtocolError::InitIgnored))
            },
            Some(BoltSummary::Failure(metadata)) => Ok(Err(metadata)),
        }
    }

    /// The protocol version that the server chose.
    pub fn protocol_version(&self) -> (version: u32)
        ensures
            version == self@.bolt.version,
    {
        self.bolt.protocol_version()
    }

    /// The version that the server gave of itself, or an empty string.
    pub fn server_version(&self) -> (version: &str)
        ensures
            version@ == (match self@.server_version {
                Some(v) => v,
                None => Seq::empty(),
            }),
    {
        match &self.server_version {
            Some(version) => version.as_str(),
            None => {
                proof {
                    reveal_strlit("");
                }
                assert(""@ =~= Seq::<char>::empty());
                ""
            },
        }
    }

    /// The bookmark of the last commit.
    pub fn bookmark(&self) -> (bookmark: &Option<String>)
        ensures
            text_view(*bookmark) == self@.bookmark,
    {
        &self.bookmark
    }

    /// Makes `bookmark` the session's bookmark.
    pub fn set_bookmark(&mut self, bookmark: String)
        ensures
            final(self)@ == (Cypher { bookmark: Some(bookmark@), ..old(self)@ }),
            old(self).wf() ==> final(self).wf(),
    {
        self.bookmark = Some(bookmark);
    }

    /// Leaves the session without a bookmark.
    pub fn clear_bookmark(&mut self)
        ensures
            final(self)@ == (Cypher { bookmark: None, ..old(self)@ }),
            old(self).wf() ==> final(self).wf(),
    {
        self.bookmark = None;
    }

    /// Whether the queue of responses can take `n` more.
    pub fn has_room(&self, n: usize) -> (ok: bool)
        requires
            self.wf(),
        ensures
            ok == room(self@.bolt, n as nat),
    {
        self.bolt.has_room(n)
    }

    /// Adds bytes that arrived from the server to what was received.
    pub fn feed(&mut self, bytes: &[u8])
        requires
            old(self).wf(),
        ensures
            final(self).wf(),
            final(self)@ == (Cypher {
                bolt: Session { received: old(self)@.bolt.received + bytes@, ..old(self)@.bolt },
                ..old(self)@
            }),
    {
        self.bolt.feed(bytes);
    }

    /// Hands out the bytes that are waiting to go to the server.
    pub fn take_sent(&mut self) -> (out: Vec<u8>)
        requires
            old(self).wf(),
        ensures
            final(self).wf(),
            out@ == old(self)@.bolt.sent,
            final(self)@ == (Cypher {
                bolt: Session { sent: Seq::empty(), ..old(self)@.bolt },
                ..old(self)@
            }),
    {
        self.bolt.take_sent()
    }

    /// Packs the opening of a transaction: `RUN "BEGIN"` with the bookmark to
    /// wait for, and `DISCARD_ALL`. Nobody reads the two responses, and
    /// nothing is sent yet.
    pub fn begin_transaction(&mut self, bookmark: Option<&str>) -> (r: Result<(), BoltError>)
        requires
            old(self).wf(),
            room(old(self)@.bolt, 2),
        ensures
            final(self).wf(),
            match r {
                Ok(()) => encodable(
                    run_message("BEGIN"@, begin_parameters(text_of_str(bookmark))),
                ) && final(self)@ == (Cypher {
                    bolt: with_statement(
                        old(self)@.bolt,
                        "BEGIN"@,
                        begin_parameters(text_of_str(bookmark)),
                        sig::DISCARD_ALL,
                        true,
                        true,
                    ),
                    ..old(self)@
                }),
                Err(e) => e == BoltError::Codec(CodecError::EncodeTooLarge) && !encodable(
                    run_message("BEGIN"@, begin_parameters(text_of_str(bookmark))),
                ) && final(self)@ == old(self)@,
            },
    {
        let parameters = match bookmark {
            Some(b) => {
                let mut entries: Vec<(String, Value)> = Vec::new();
                entries.push((String::from_str("bookmark"), Value::String(String::from_str(b))));
                let map = Value::Dictionary(entries);
                proof {
                    lemma_view(map);
                    assert(entries_of(entries@) =~= seq![("bookmark"@, Term::String(b@))]);
                }
                Some(map)
            },
            None => None,
        };
        match self.bolt.run("BEGIN", parameters) {
            Ok(()) => {},
            Err(e) => {
                return Err(e);
            },
        }
        let _ = self.bolt.discard_all();
        self.bolt.ignore_response();
        self.bolt.ignore_response();
        Ok(())
    }

    /// Packs and queues a statement without parameters, followed by
    /// `DISCARD_ALL`; only the second response is read.
    fn run_keyword(&mut self, keyword: &str) -> (body: usize)
        requires
            old(self).wf(),
            room(old(self)@.bolt, 2),
            is_ascii_chars(keyword@),
            keyword@.len() < 0x1_0000_0000,
        ensures
            final(self).wf(),
            body == old(self)@.bolt.responses_done + old(self)@.bolt.responses.len() + 1,
            final(self)@ == (Cypher {
                bolt: flushed(
                    with_statement(
                        old(self)@.bolt,
                        keyword@,
                        Term::Dictionary(Seq::empty()),
                        sig::DISCARD_ALL,
                        true,
                        false,
                    ),
                ),
                ..old(self)@
            }),
    {
        proof {
            lemma_plain_text(keyword@);
            lemma_run_message(keyword@, Term::Dictionary(Seq::empty()));
        }
        let r = self.bolt.run(keyword, None);
        assert(r is Ok);
        let _ = self.bolt.discard_all();
        self.bolt.ignore_response();
        let body = self.bolt.collect_response();
        self.bolt.send();
        body
    }

    /// Packs and queues a commit: `RUN "COMMIT"` and `DISCARD_ALL`. Returns
    /// the identifier of the response to read with
    /// [`CypherStream::fetch_commit`].
    pub fn commit_transaction(&mut self) -> (body: usize)
        requires
            old(self).wf(),
            room(old(self)@.bolt, 2),
        ensures
            final(self).wf(),
            body == old(self)@.bolt.responses_done + old(self)@.bolt.responses.len() + 1,
            final(self)@ == (Cypher {
                bolt: flushed(
                    with_statement(
                        old(self)@.bolt,
                        "COMMIT"@,
                        Term::Dictionary(Seq::empty()),
                        sig::DISCARD_ALL,
                        true,
                        false,
                    ),
                ),
                ..old(self)@
            }),
    {
        proof {
            reveal_strlit("COMMIT");
        }
        self.run_keyword("COMMIT")
    }

    /// Reads the answer to a commit and takes over its bookmark.
    pub fn fetch_commit(&mut self, body: usize) -> (r: Result<Option<BoltSummary>, BoltError>)
        requires
            old(self).wf(),
            room(old(self)@.bolt, 1),
        ensures
            final(self).wf(),
            final(self)@ == commit_fetched(old(self)@, body as int).0,
            match r {
                Ok(summary) => commit_fetched(old(self)@, body as int).1 == Ok::<_, BoltError>(
                    summary_view(summary),
                ),
                Err(e) => commit_fetched(old(self)@, body as int).1 == Err::<Option<Summary>, _>(
                    e,
                ),
            },
    {
        let summary = match self.bolt.fetch_summary(body) {
            Ok(summary) => summary,
            Err(e) => {
                return Err(e);
            },
        };
        let bookmark: Option<String> = match &summary {
            Some(BoltSummary::Success(metadata)) => text_of(metadata, "bookmark"),
            _ => None,
        };
        let ignored = match &summary {
            Some(BoltSummary::Ignored(_)) => true,
            _ => false,
        };
        let ret = if ignored {
            self.bookmark = None;
            self.bolt.fetch_failure(body)
        } else {
            self.bookmark = bookmark;
            summary
        };
        self.tidy(is_failure(&ret));
        Ok(ret)
    }

    /// Packs and queues a rollback: `RUN "ROLLBACK"` and `DISCARD_ALL`.
    /// Returns the identifier of the response to drop with
    /// [`CypherStream::fetch_discard`].
    pub fn rollback_transaction(&mut self) -> (body: usize)
        requires
            old(self).wf(),
            room(old(self)@.bolt, 2),
        ensures
            final(self).wf(),
            body == old(self)@.bolt.responses_done + old(self)@.bolt.responses.len() + 1,
            final(self)@ == (Cypher {
                bolt: flushed(
                    with_statement(
                        old(self)@.bolt,
                        "ROLLBACK"@,
                        Term::Dictionary(Seq::empty()),
                        sig::DISCARD_ALL,
                        true,
                        false,
                    ),
                ),
                ..old(self)@
            }),
    {
        proof {
            reveal_strlit("ROLLBACK");
        }
        self.run_keyword("ROLLBACK")
    }

    /// Packs and queues a `RESET`. Returns the identifier of the response to
    /// read with [`CypherStream::fetch_reset`].
    pub fn reset(&mut self) -> (id: usize)
        requires
            old(self).wf(),
            room(old(self)@.bolt, 1),
        ensures
            final(self).wf(),
            id == old(self)@.bolt.responses_done + old(self)@.bolt.responses.len(),
            final(self)@ == (Cypher {
                bolt: flushed(
                    with_slot(with_request(old(self)@.bolt, bare_message(sig::RESET)), false),
                ),
                ..old(self)@
            }),
    {
        let _ = self.bolt.reset();
        let id = self.bolt.collect_response();
        self.bolt.send();
        id
    }

    /// Reads the answer to a rollback and drops it.
    pub fn fetch_discard(&mut self, id: usize) -> (r: Result<(), BoltError>)
        requires
            old(self).wf(),
            room(old(self)@.bolt, 1),
        ensures
            final(self).wf(),
            final(self)@ == (Cypher { bolt: discarded(old(self)@.bolt, id as int).0, ..old(self)@ }),
            r == discarded(old(self)@.bolt, id as int).1,
    {
        match self.bolt.fetch_summary(id) {
            Ok(summary) => {
                self.tidy(is_failure(&summary));
                Ok(())
            },
            Err(e) => Err(e),
        }
    }

    /// Reads the answer to a reset. With it, all that was pending before the
    /// reset is given up: those responses leave the queue unread.
    pub fn fetch_reset(&mut self, id: usize) -> (r: Result<(), BoltError>)
        requires
            old(self).wf(),
            room(old(self)@.bolt, 1),
        ensures
            final(self).wf(),
            final(self)@ == (Cypher {
                bolt: reset_fetched(old(self)@.bolt, id as int).0,
                ..old(self)@
            }),
            r == reset_fetched(old(self)@.bolt, id as int).1,
    {
        match self.bolt.fetch_summary(id) {
            Ok(summary) => {
                self.bolt.discard_before(id);
                self.tidy(is_failure(&summary));
                Ok(())
            },
            Err(e) => Err(e),
        }
    }

    /// Packs and queues a statement with its parameters, followed by
    /// `PULL_ALL`. The answer to the statement is read by
    /// [`CypherStream::fetch_header`].
    pub fn run(&mut self, statement: &str, parameters: Vec<(String, Value)>) -> (r: Result<
        Cursor,
        BoltError,
    >)
        requires
            old(self).wf(),
            room(old(self)@.bolt, 2),
        ensures
            final(self).wf(),
            match r {
                Ok(cursor) => encodable(
                    run_message(statement@, Term::Dictionary(entries_of(parameters@))),
                ) && cursor.head_id() == old(self)@.bolt.responses_done + old(
                    self,
                )@.bolt.responses.len() && cursor.body_id() == cursor.head_id() + 1 && final(self)@
                    == (Cypher {
                    bolt: flushed(
                        with_statement(
                            old(self)@.bolt,
                            statement@,
                            Term::Dictionary(entries_of(parameters@)),
                            sig::PULL_ALL,
                            false,
                            false,
                        ),
                    ),
                    ..old(self)@
                }),
                Err(e) => e == BoltError::Codec(CodecError::EncodeTooLarge) && !encodable(
                    run_message(statement@, Term::Dictionary(entries_of(parameters@))),
                ) && final(self)@ == old(self)@,
            },
    {
        let map = Value::Dictionary(parameters);
        proof {
            lemma_view(map);
        }
        match self.bolt.run(statement, Some(map)) {
            Ok(()) => {},
            Err(e) => {
                return Err(e);
            },
        }
        let _ = self.bolt.pull_all();
        let head = self.bolt.collect_response();
        let body = self.bolt.collect_response();
        self.bolt.send();
        Ok(Cursor { head, body })
    }

    /// Packs and queues a statement whose answers nobody reads: `RUN` with
    /// the parameters, followed by `DISCARD_ALL`.
    pub fn run_unchecked(&mut self, statement: &str, parameters: Vec<(String, Value)>) -> (r:
        Result<(), BoltError>)
        requires
            old(self).wf(),
            room(old(self)@.bolt, 2),
        ensures
            final(self).wf(),
            match r {
                Ok(()) => encodable(
                    run_message(statement@, Term::Dictionary(entries_of(parameters@))),
                ) && final(self)@ == (Cypher {
                    bolt: flushed(
                        with_statement(
                            old(self)@.bolt,
                            statement@,
                            Term::Dictionary(entries_of(parameters@)),
                            sig::DISCARD_ALL,
                            true,
                            true,
                        ),
                    ),
                    ..old(self)@
                }),
                Err(e) => e == BoltError::Codec(CodecError::EncodeTooLarge) && !encodable(
                    run_message(statement@, Term::Dictionary(entries_of(parameters@))),
                ) && final(self)@ == old(self)@,
            },
    {
        let map = Value::Dictionary(parameters);
        proof {
            lemma_view(map);
        }
        match self.bolt.run(statement, Some(map)) {
            Ok(()) => {},
            Err(e) => {
                return Err(e);
            },
        }
        let _ = self.bolt.discard_all();
        self.bolt.ignore_response();
        self.bolt.ignore_response();
        self.bolt.send();
        Ok(())
    }

    /// Queues what has been packed for sending.
    pub fn send(&mut self)
        requires
            old(self).wf(),
        ensures
            final(self).wf(),
            final(self)@ == (Cypher { bolt: flushed(old(self)@.bolt), ..old(self)@ }),
    {
        self.bolt.send();
    }

    /// Acknowledges a failure, so that the server serves requests again.
    fn acknowledge(&mut self)
        requires
            old(self).wf(),
            room(old(self)@.bolt, 1),
        ensures
            final(self).wf(),
            final(self)@ == (Cypher { bolt: acknowledged(old(self)@.bolt), ..old(self)@ }),
    {
        let _ = self.bolt.ack_failure();
        self.bolt.ignore_response();
        self.bolt.send();
    }

    /// Deals with a summary that has been read: compacts the queue, and
    /// acknowledges a failure.
    fn tidy(&mut self, failed: bool)
        requires
            old(self).wf(),
            room(old(self)@.bolt, 1),
        ensures
            final(self).wf(),
            final(self)@ == (Cypher {
                bolt: if failed {
                    acknowledged(compacted(old(self)@.bolt))
                } else {
                    compacted(old(self)@.bolt)
                },
                ..old(self)@
            }),
    {
        self.bolt.compact_responses();
        if failed {
            self.acknowledge();
        }
    }

    /// Reads the answer to the statement of `cursor`: its header, or the
    /// metadata of the server's refusal. A failure is acknowledged at once.
    pub fn fetch_header(&mut self, cursor: Cursor) -> (r: Result<Answer<StatementResult>, BoltError>)
        requires
            old(self).wf(),
            room(old(self)@.bolt, 1),
        ensures
            final(self).wf(),
            final(self)@ == (Cypher {
                bolt: header_fetched(old(self)@.bolt, cursor.head_id()).0,
                ..old(self)@
            }),
            match r {
                Ok(Ok(result)) => header_fetched(old(self)@.bolt, cursor.head_id()).1 == Ok::<
                    _,
                    BoltError,
                >(Ok::<_, Seq<(Seq<char>, Term)>>(result.header())) && result.body_id()
                    == cursor.body_id(),
                Ok(Err(metadata)) => header_fetched(old(self)@.bolt, cursor.head_id()).1 == Ok::<
                    _,
                    BoltError,
                >(Err::<Seq<(Seq<char>, Term)>, _>(entries_of(metadata@))),
                Err(e) => header_fetched(old(self)@.bolt, cursor.head_id()).1 == Err::<
                    Result<Seq<(Seq<char>, Term)>, Seq<(Seq<char>, Term)>>,
                    _,
                >(e),
            },
    {
        let summary = match self.bolt.fetch_summary(cursor.head) {
            Ok(summary) => summary,
            Err(e) => {
                return Err(e);
            },
        };
        self.bolt.compact_responses();
        match summary {
            None => Err(BoltError::NoSummary),
            Some(BoltSummary::Success(metadata)) => Ok(
                Ok(StatementResult { header: metadata, body: cursor.body }),
            ),
            Some(BoltSummary::Ignored(metadata)) => Ok(Err(metadata)),
            Some(BoltSummary::Failure(metadata)) => {
                self.acknowledge();
                Ok(Err(metadata))
            },
        }
    }

    /// Hands out the next row of a result; `None` when there is none left.
    pub fn fetch(&mut self, result: &StatementResult) -> (r: Result<Option<Data>, BoltError>)
        requires
            old(self).wf(),
        ensures
            final(self).wf(),
            final(self)@ == (Cypher {
                bolt: record_fetched(old(self)@.bolt, result.body_id()).0,
                ..old(self)@
            }),
            match r {
                Ok(Some(data)) => record_fetched(old(self)@.bolt, result.body_id()).1 == Ok::<
                    _,
                    BoltError,
                >(Some(data.fields())),
                Ok(None) => record_fetched(old(self)@.bolt, result.body_id()).1 == Ok::<
                    Option<Seq<Term>>,
                    BoltError,
                >(None),
                Err(e) => record_fetched(old(self)@.bolt, result.body_id()).1 == Err::<
                    Option<Seq<Term>>,
                    _,
                >(e),
            },
    {
        self.bolt.fetch_record(result.body)
    }

    /// Hands out the summary of a result. A failure is acknowledged at once.
    pub fn fetch_summary(&mut self, result: &StatementResult) -> (r: Result<
        Option<BoltSummary>,
        BoltError,
    >)
        requires
            old(self).wf(),
            room(old(self)@.bolt, 1),
        ensures
            final(self).wf(),
            final(self)@ == (Cypher {
                bolt: footer_fetched(old(self)@.bolt, result.body_id()).0,
                ..old(self)@
            }),
            match r {
                Ok(summary) => footer_fetched(old(self)@.bolt, result.body_id()).1 == Ok::<
                    _,
                    BoltError,
                >(summary_view(summary)),
                Err(e) => footer_fetched(old(self)@.bolt, result.body_id()).1 == Err::<
                    Option<Summary>,
                    _,
                >(e),
            },
    {
        let summary = match self.bolt.fetch_summary(result.body) {
            Ok(summary) => summary,
            Err(e) => {
                return Err(e);
            },
        };
        self.tidy(is_failure(&summary));
        Ok(summary)
    }

    /// Reads a result to its end: drops the rows that are left, then hands
    /// out the summary. Afterwards the session is ready for the next
    /// statement.
    pub fn drain(&mut self, result: &StatementResult) -> (r: Result<
        Option<BoltSummary>,
        BoltError,
    >)
        requires
            old(self).wf(),
            room(old(self)@.bolt, 1),
        ensures
            final(self).wf(),
            final(self)@ == (Cypher {
                bolt: drained(old(self)@.bolt, result.body_id()).0,
                ..old(self)@
            }),
            match r {
                Ok(summary) => drained(old(self)@.bolt, result.body_id()).1 == Ok::<
                    _,
                    BoltError,
                >(summary_view(summary)),
                Err(e) => drained(old(self)@.bolt, result.body_id()).1 == Err::<
                    Option<Summary>,
                    _,
                >(e),
            },
    {
        let ghost body = result.body_id();
        loop
            invariant_except_break
                rows_dropped(self@.bolt, body) == rows_dropped(old(self)@.bolt, body),
            invariant
                self.wf(),
                room(self@.bolt, 1),
                body == result.body_id(),
                self@.server_version == old(self)@.server_version,
                self@.bookmark == old(self)@.bookmark,
            ensures
                rows_dropped(old(self)@.bolt, body) == (self@.bolt, Ok::<(), BoltError>(())),
            decreases
                self@.bolt.received.len() - self@.bolt.position,
                (if 0 <= body - self@.bolt.responses_done < self@.bolt.responses.len() {
                    self@.bolt.responses[body - self@.bolt.responses_done].detail.len()
                } else {
                    0
                }),
        {
            let ghost before = self@.bolt;
            match self.bolt.fetch_record(result.body) {
                Err(e) => {
                    assert(rows_dropped(before, body) == (self@.bolt, Err::<(), _>(e)));
                    return Err(e);
                },
                Ok(None) => {
                    assert(rows_dropped(before, body) == (self@.bolt, Ok::<(), BoltError>(())));
                    break ;
                },
                Ok(Some(_)) => {
                    assert(rows_dropped(before, body) == rows_dropped(self@.bolt, body));
                },
            }
        }
        self.fetch_summary(result)
    }
}

} // verus!
