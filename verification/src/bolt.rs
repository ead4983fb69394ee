//! The pipelined Bolt session.
//!
//! Requests are packed into a send buffer and go out together; each one is
//! given a slot in a queue of pending responses. Messages from the server
//! fill the slots in the order of the requests, whichever response the
//! caller asks for first.

use crate::bytes::{be32, be32_value, be_to_u32, u32_to_be};
use crate::chunk::{deframe, frame, ChunkError, ChunkStream};
use crate::pack::{encodable, encode, Packer};
use crate::sig;
use crate::unpack::{decode, unpack};
use crate::value::{entries_of, lemma_view, terms_of, CodecError, Data, Term, Value};
use std::collections::VecDeque;
use vstd::prelude::*;
use vstd::slice::slice_subrange;
use vstd::string::StringExecFns;

verus! {

/// How a message from the server breaks the protocol.
#[derive(Clone, Copy, Debug, PartialEq, Eq, Structural)]
pub enum ProtocolError {
    /// The message is no structure.
    NotAStructure,
    /// The message is a structure whose signature is that of no response.
    UnknownSignature,
    /// The metadata of a summary is no dictionary, or the data of a record
    /// is no list.
    UnexpectedShape,
    /// The message answers a request that was never given a slot.
    OutOfSequence,
    /// The server skipped the request that opens the session.
    InitIgnored,
}

/// Why an operation of the session failed.
#[derive(Debug, PartialEq, Eq)]
pub enum BoltError {
    /// The server could not be reached.
    Connect(String),
    /// The handshake could not be written or its answer not read.
    Handshake(String),
    /// The server agreed to none of the proposed versions.
    HandshakeRejected,
    /// No whole message has been received yet.
    Socket(ChunkError),
    /// A message could not be written to, or read from, its wire form.
    Codec(CodecError),
    /// A message from the server breaks the protocol.
    Protocol(ProtocolError),
    /// The session met a fatal error before and is out of use.
    Defunct,
    /// The response asked for is not, or no longer, in the queue.
    UnknownResponse,
    /// The summary asked for was handed out before.
    NoSummary,
}

/// What an error says in words.
pub open spec fn description(e: BoltError) -> Seq<char> {
    match e {
        BoltError::Connect(text) => "Connect error: "@ + text@,
        BoltError::Handshake(text) => "Handshake error: "@ + text@,
        BoltError::HandshakeRejected => "Handshake error: no version agreed"@,
        BoltError::Socket(_) => "Socket error: unexpected end of stream"@,
        BoltError::Codec(CodecError::DecodeTruncated) => "Codec error: truncated input"@,
        BoltError::Codec(CodecError::DecodeMarker) => "Codec error: unknown marker"@,
        BoltError::Codec(CodecError::DecodeMapKey) => "Codec error: map key is not a string"@,
        BoltError::Codec(CodecError::DecodeText) => "Codec error: string is not UTF-8"@,
        BoltError::Codec(CodecError::EncodeTooLarge) => "Codec error: value too large"@,
        BoltError::Protocol(ProtocolError::NotAStructure) =>
            "Protocol error: message is not a structure"@,
        BoltError::Protocol(ProtocolError::UnknownSignature) =>
            "Protocol error: unknown message signature"@,
        BoltError::Protocol(ProtocolError::UnexpectedShape) =>
            "Protocol error: unexpected structure shape"@,
        BoltError::Protocol(ProtocolError::OutOfSequence) =>
            "Protocol error: response out of sequence"@,
        BoltError::Protocol(ProtocolError::InitIgnored) => "Protocol error: INIT was IGNORED"@,
        BoltError::Defunct => "Session is defunct"@,
        BoltError::UnknownResponse => "Unknown response"@,
        BoltError::NoSummary => "No summary"@,
    }
}

impl BoltError {
    /// What the error says in words.
    pub fn to_string(&self) -> (text: String)
        ensures
            text@ == description(*self),
    {
        match self {
            BoltError::Connect(text) => String::from_str("Connect error: ").concat(text.as_str()),
            BoltError::Handshake(text) => String::from_str("Handshake error: ").concat(
                text.as_str(),
            ),
            BoltError::HandshakeRejected => String::from_str("Handshake error: no version agreed"),
            BoltError::Socket(_) => String::from_str("Socket error: unexpected end of stream"),
            BoltError::Codec(CodecError::DecodeTruncated) => String::from_str(
                "Codec error: truncated input",
            ),
            BoltError::Codec(CodecError::DecodeMarker) => String::from_str(
                "Codec error: unknown marker",
            ),
            BoltError::Codec(CodecError::DecodeMapKey) => String::from_str(
                "Codec error: map key is not a string",
            ),
            BoltError::Codec(CodecError::DecodeText) => String::from_str(
                "Codec error: string is not UTF-8",
            ),
            BoltError::Codec(CodecError::EncodeTooLarge) => String::from_str(
                "Codec error: value too large",
            ),
            BoltError::Protocol(ProtocolError::NotAStructure) => String::from_str(
                "Protocol error: message is not a structure",
            ),
            BoltError::Protocol(ProtocolError::UnknownSignature) => String::from_str(
                "Protocol error: unknown message signature",
            ),
            BoltError::Protocol(ProtocolError::UnexpectedShape) => String::from_str(
                "Protocol error: unexpected structure shape",
            ),
            BoltError::Protocol(ProtocolError::OutOfSequence) => String::from_str(
                "Protocol error: response out of sequence",
            ),
            BoltError::Protocol(ProtocolError::InitIgnored) => String::from_str(
                "Protocol error: INIT was IGNORED",
            ),
            BoltError::Defunct => String::from_str("Session is defunct"),
            BoltError::UnknownResponse => String::from_str("Unknown response"),
            BoltError::NoSummary => String::from_str("No summary"),
        }
    }
}

/// The three summaries with which the server ends its answer to a request.
#[derive(Clone, Copy, Debug, PartialEq, Eq, Structural)]
pub enum SummaryKind {
    Success,
    Ignored,
    Failure,
}

/// The end of the answer to a request, with its metadata.
#[derive(Debug, PartialEq, Eq)]
pub enum BoltSummary {
    Success(Vec<(String, Value)>),
    Ignored(Vec<(String, Value)>),
    Failure(Vec<(String, Value)>),
}

/// The mathematical content of a [`BoltSummary`].
pub struct Summary {
    pub kind: SummaryKind,
    pub metadata: Seq<(Seq<char>, Term)>,
}

impl View for BoltSummary {
    type V = Summary;

    open spec fn view(&self) -> Summary {
        match self {
            BoltSummary::Success(m) => Summary {
                kind: SummaryKind::Success,
                metadata: entries_of(m@),
            },
            BoltSummary::Ignored(m) => Summary {
                kind: SummaryKind::Ignored,
                metadata: entries_of(m@),
            },
            BoltSummary::Failure(m) => Summary {
                kind: SummaryKind::Failure,
                metadata: entries_of(m@),
            },
        }
    }
}

/// The view of a summary that may not be there yet.
pub open spec fn summary_view(summary: Option<BoltSummary>) -> Option<Summary> {
    match summary {
        Some(s) => Some(s@),
        None => None,
    }
}

/// The rows of a queue of records.
pub open spec fn rows_of(detail: Seq<Data>) -> Seq<Seq<Term>> {
    Seq::new(detail.len(), |i: int| detail[i].fields())
}

/// The slot of one request: what has come in for it so far.
pub struct BoltResponse {
    detail: VecDeque<Data>,
    summary: Option<BoltSummary>,
    done: bool,
    ignored_by_caller: bool,
}

/// The mathematical content of a [`BoltResponse`].
pub struct Response {
    /// The records that came in and were not handed out yet.
    pub detail: Seq<Seq<Term>>,
    /// The summary, once it came in and until it is handed out.
    pub summary: Option<Summary>,
    /// Whether the caller is through with this response.
    pub done: bool,
    /// Whether the caller said beforehand that it would not read it.
    pub ignored_by_caller: bool,
}

impl View for BoltResponse {
    type V = Response;

    closed spec fn view(&self) -> Response {
        Response {
            detail: rows_of(self.detail@),
            summary: summary_view(self.summary),
            done: self.done,
            ignored_by_caller: self.ignored_by_caller,
        }
    }
}

/// A slot in which nothing has come in.
pub open spec fn empty_response(ignored: bool) -> Response {
    Response { detail: Seq::empty(), summary: None, done: ignored, ignored_by_caller: ignored }
}

impl BoltResponse {
    /// The slot of a request whose response the caller will read.
    pub fn new() -> (response: BoltResponse)
        ensures
            response@ == empty_response(false),
    {
        let response = BoltResponse {
            detail: VecDeque::new(),
            summary: None,
            done: false,
            ignored_by_caller: false,
        };
        assert(response@.detail =~= Seq::empty());
        response
    }

    /// The slot of a request whose response the caller will not read.
    pub fn done() -> (response: BoltResponse)
        ensures
            response@ == empty_response(true),
    {
        let response = BoltResponse {
            detail: VecDeque::new(),
            summary: None,
            done: true,
            ignored_by_caller: true,
        };
        assert(response@.detail =~= Seq::empty());
        response
    }
}

/// The mathematical content of a [`BoltStream`].
pub struct Session {
    /// All bytes received from the server.
    pub received: Seq<u8>,
    /// How far the received bytes have been read.
    pub position: int,
    /// The bytes waiting to go to the server.
    pub sent: Seq<u8>,
    /// The requests packed and not sent yet, each in its wire form.
    pub requests: Seq<Seq<u8>>,
    /// The queue of pending responses.
    pub responses: Seq<Response>,
    /// How many responses have left the queue at its head.
    pub responses_done: nat,
    /// The place in the queue of the response that is being filled.
    pub cursor: nat,
    /// The protocol version that the server chose.
    pub version: u32,
    /// Whether a fatal error has put the session out of use.
    pub defunct: bool,
}

/// The message that opens the handshake: the magic number and four proposed
/// versions, of which only the first is one.
pub open spec fn handshake_bytes() -> Seq<u8> {
    seq![0x60u8, 0x60u8, 0xB0u8, 0x17u8] + be32(1) + be32(0) + be32(0) + be32(0)
}

/// The handshake is these twenty bytes.
pub proof fn lemma_handshake_bytes()
    ensures
        handshake_bytes() == seq![
            0x60u8,
            0x60u8,
            0xB0u8,
            0x17u8,
            0x00u8,
            0x00u8,
            0x00u8,
            0x01u8,
            0x00u8,
            0x00u8,
            0x00u8,
            0x00u8,
            0x00u8,
            0x00u8,
            0x00u8,
            0x00u8,
            0x00u8,
            0x00u8,
            0x00u8,
            0x00u8,
        ],
{
    assert(handshake_bytes() =~= seq![
        0x60u8,
        0x60u8,
        0xB0u8,
        0x17u8,
        0x00u8,
        0x00u8,
        0x00u8,
        0x01u8,
        0x00u8,
        0x00u8,
        0x00u8,
        0x00u8,
        0x00u8,
        0x00u8,
        0x00u8,
        0x00u8,
        0x00u8,
        0x00u8,
        0x00u8,
        0x00u8,
    ]);
}

/// A structure without fields.
pub open spec fn bare_message(signature: u8) -> Term {
    Term::Structure { signature, fields: Seq::empty() }
}

/// The `INIT` message for basic authentication.
pub open spec fn init_message(user_agent: Seq<char>, user: Seq<char>, password: Seq<char>) -> Term {
    Term::Structure {
        signature: sig::INIT,
        fields: seq![
            Term::String(user_agent),
            Term::Dictionary(
                seq![
                    ("scheme"@, Term::String("basic"@)),
                    ("principal"@, Term::String(user)),
                    ("credentials"@, Term::String(password)),
                ],
            ),
        ],
    }
}

/// The `RUN` message.
pub open spec fn run_message(statement: Seq<char>, parameters: Term) -> Term {
    Term::Structure { signature: sig::RUN, fields: seq![Term::String(statement), parameters] }
}

/// A statement and parameters that have wire forms make a `RUN` message
/// that has one.
pub proof fn lemma_run_message(statement: Seq<char>, parameters: Term)
    requires
        encodable(Term::String(statement)),
        encodable(parameters),
    ensures
        encodable(run_message(statement, parameters)),
{
    let fields = seq![Term::String(statement), parameters];
    assert(fields.len() == 2);
    assert forall|i: int| 0 <= i < fields.len() implies encodable(#[trigger] fields[i]) by {
        if i == 0 {
        } else {
            assert(fields[i] == parameters);
        }
    }
}

/// The parameters that go out with a statement: those given, or none.
pub open spec fn parameters_term(parameters: Option<Value>) -> Term {
    match parameters {
        Some(v) => v@,
        None => Term::Dictionary(Seq::empty()),
    }
}

/// The wire forms of the messages from index `from` on, framed one after
/// the other.
pub open spec fn frames(requests: Seq<Seq<u8>>, from: int) -> Seq<u8>
    decreases requests.len() - from,
{
    if 0 <= from < requests.len() {
        frame(requests[from]) + frames(requests, from + 1)
    } else {
        Seq::empty()
    }
}

/// The session as it is right after a handshake that the server answered
/// with `reply`.
pub open spec fn opened(reply: Seq<u8>) -> Session {
    Session {
        received: reply.skip(4),
        position: 0,
        sent: Seq::empty(),
        requests: Seq::empty(),
        responses: Seq::empty(),
        responses_done: 0,
        cursor: 0,
        version: be32_value(reply),
        defunct: false,
    }
}

/// The session after a message has been packed.
pub open spec fn with_request(s: Session, message: Term) -> Session {
    Session { requests: s.requests.push(encode(message)), ..s }
}

/// The session after the next request has been given a slot.
pub open spec fn with_slot(s: Session, ignored: bool) -> Session {
    Session { responses: s.responses.push(empty_response(ignored)), ..s }
}

/// The session after the packed requests have gone to the stream.
pub open spec fn flushed(s: Session) -> Session {
    Session { sent: s.sent + frames(s.requests, 0), requests: Seq::empty(), ..s }
}

/// Whether the queue can take `n` more responses without running out of
/// identifiers.
pub open spec fn room(s: Session, n: nat) -> bool {
    s.responses_done + s.responses.len() + n <= usize::MAX
}

/// What a message from the server says.
pub enum Reply {
    /// One row for the response that is being filled.
    Record(Seq<Term>),
    /// The end of the response that is being filled.
    Summary(Summary),
}

/// The metadata that a summary carries: that of its first field, or none
/// where it has no field.
pub open spec fn summary_reply(kind: SummaryKind, fields: Seq<Term>) -> Result<Reply, BoltError> {
    if fields.len() == 0 {
        Ok(Reply::Summary(Summary { kind, metadata: Seq::empty() }))
    } else {
        match fields[0] {
            Term::Dictionary(metadata) => Ok(Reply::Summary(Summary { kind, metadata })),
            _ => Err(BoltError::Protocol(ProtocolError::UnexpectedShape)),
        }
    }
}

/// What a decoded message says. It must be a structure with one of the four
/// signatures of a response.
pub open spec fn classify(message: Term) -> Result<Reply, BoltError> {
    match message {
        Term::Structure { signature, fields } => if signature == sig::SUCCESS {
            summary_reply(SummaryKind::Success, fields)
        } else if signature == sig::IGNORED {
            summary_reply(SummaryKind::Ignored, fields)
        } else if signature == sig::FAILURE {
            summary_reply(SummaryKind::Failure, fields)
        } else if signature == sig::RECORD {
            if fields.len() == 0 {
                Ok(Reply::Record(Seq::empty()))
            } else {
                match fields[0] {
                    Term::List(data) => Ok(Reply::Record(data)),
                    _ => Err(BoltError::Protocol(ProtocolError::UnexpectedShape)),
                }
            }
        } else {
            Err(BoltError::Protocol(ProtocolError::UnknownSignature))
        },
        _ => Err(BoltError::Protocol(ProtocolError::NotAStructure)),
    }
}

/// What the bytes of a message say.
pub open spec fn parse_reply(message: Seq<u8>) -> Result<Reply, BoltError> {
    match decode(message, 0) {
        Err(e) => Err(BoltError::Codec(e)),
        Ok((term, _)) => classify(term),
    }
}

/// The session after a reply has gone to the response that is being filled:
/// a record is added to its rows, a summary ends it and moves the cursor on.
pub open spec fn deliver(s: Session, reply: Reply) -> Session
    recommends
        s.cursor < s.responses.len(),
{
    let slot = s.responses[s.cursor as int];
    match reply {
        Reply::Record(data) => Session {
            responses: s.responses.update(
                s.cursor as int,
                Response { detail: slot.detail.push(data), ..slot },
            ),
            ..s
        },
        Reply::Summary(summary) => Session {
            responses: s.responses.update(
                s.cursor as int,
                Response { summary: Some(summary), ..slot },
            ),
            cursor: s.cursor + 1,
            ..s
        },
    }
}

/// The session after one step of fetching, and how the step ended.
///
/// A session that is out of use stays so. Where no whole message has been
/// received, nothing changes. Otherwise the message is read; if it is no
/// well-formed reply, or no response is waiting for it, the session goes
/// out of use; else the reply is delivered.
pub open spec fn fetched(s: Session) -> (Session, Result<(), BoltError>) {
    if s.defunct {
        (s, Err(BoltError::Defunct))
    } else {
        match deframe(s.received, s.position, Seq::empty()) {
            None => (s, Err(BoltError::Socket(ChunkError::UnexpectedEof))),
            Some((message, next)) => {
                let read = Session { position: next, ..s };
                match parse_reply(message) {
                    Err(e) => (Session { defunct: true, ..read }, Err(e)),
                    Ok(reply) => if s.cursor >= s.responses.len() {
                        (
                            Session { defunct: true, ..read },
                            Err(BoltError::Protocol(ProtocolError::OutOfSequence)),
                        )
                    } else {
                        (deliver(read, reply), Ok(()))
                    },
                }
            },
        }
    }
}

/// The session after fetching until the cursor is past `index`, or until a
/// step fails.
pub open spec fn fetched_past(s: Session, index: int) -> (Session, Result<(), BoltError>)
    decreases s.received.len() - s.position,
{
    if s.cursor > index {
        (s, Ok(()))
    } else {
        let (t, r) = fetched(s);
        if r is Ok && t.received == s.received && s.position < t.position <= t.received.len() {
            fetched_past(t, index)
        } else {
            (t, r)
        }
    }
}

/// The session after fetching until the response at `index` holds a row or
/// the cursor is past it, or until a step fails.
pub open spec fn fetched_row(s: Session, index: int) -> (Session, Result<(), BoltError>)
    decreases s.received.len() - s.position,
{
    if !(0 <= index < s.responses.len()) || s.responses[index].detail.len() > 0 || s.cursor
        > index {
        (s, Ok(()))
    } else {
        let (t, r) = fetched(s);
        if r is Ok && t.received == s.received && s.position < t.position <= t.received.len() {
            fetched_row(t, index)
        } else {
            (t, r)
        }
    }
}

/// Whether `id` names a response that is in the queue.
pub open spec fn pending(s: Session, id: int) -> bool {
    s.responses_done <= id < s.responses_done + s.responses.len()
}

/// Asking for the summary of response `id`: the session afterwards, and the
/// answer. The session fetches until that response is complete; then the
/// summary leaves its slot and the response counts as done.
pub open spec fn summary_fetched(s: Session, id: int) -> (
    Session,
    Result<Option<Summary>, BoltError>,
) {
    let index = id - s.responses_done;
    if !pending(s, id) {
        (s, Err(BoltError::UnknownResponse))
    } else {
        let (t, r) = fetched_past(s, index);
        match r {
            Err(e) => (t, Err(e)),
            Ok(()) => (
                Session {
                    responses: t.responses.update(
                        index,
                        Response { summary: None, done: true, ..t.responses[index] },
                    ),
                    ..t
                },
                Ok(t.responses[index].summary),
            ),
        }
    }
}

/// Asking for the next row of response `id`: the session afterwards, and the
/// answer. The session fetches until that response holds a row or is
/// complete; the first row, if there is one, leaves the slot.
pub open spec fn record_fetched(s: Session, id: int) -> (
    Session,
    Result<Option<Seq<Term>>, BoltError>,
) {
    let index = id - s.responses_done;
    if !pending(s, id) {
        (s, Err(BoltError::UnknownResponse))
    } else {
        let (t, r) = fetched_row(s, index);
        match r {
            Err(e) => (t, Err(e)),
            Ok(()) => if t.responses[index].detail.len() > 0 {
                (
                    Session {
                        responses: t.responses.update(
                            index,
                            Response {
                                detail: t.responses[index].detail.skip(1),
                                ..t.responses[index]
                            },
                        ),
                        ..t
                    },
                    Ok(Some(t.responses[index].detail[0])),
                )
            } else {
                (t, Ok(None))
            },
        }
    }
}

/// What handing out a row changes for certain: nothing is unread that was
/// read, the queue keeps its length and its head, and either more of the
/// received bytes have been read or the response holds one row less.
pub open spec fn row_taken(s: Session, t: Session, id: int) -> bool {
    let index = id - s.responses_done;
    &&& t.received == s.received
    &&& t.responses_done == s.responses_done
    &&& t.responses.len() == s.responses.len()
    &&& pending(s, id)
    &&& (s.position < t.position <= t.received.len() || (t.position == s.position
        && t.responses[index].detail.len() < s.responses[index].detail.len()))
}

/// The session after the responses that are done have left the head of the
/// queue, as far as the cursor has passed them.
pub open spec fn compacted(s: Session) -> Session
    decreases s.responses.len(),
{
    if s.cursor > 0 && s.responses.len() > 0 && s.responses[0].done {
        compacted(
            Session {
                responses: s.responses.skip(1),
                responses_done: s.responses_done + 1,
                cursor: (s.cursor - 1) as nat,
                ..s
            },
        )
    } else {
        s
    }
}

/// The session after the caller has given up every response before the
/// place `index` in the queue.
pub open spec fn done_before(s: Session, index: int) -> Session {
    Session {
        responses: Seq::new(
            s.responses.len(),
            |i: int|
                if i < index {
                    Response { done: true, ..s.responses[i] }
                } else {
                    s.responses[i]
                },
        ),
        ..s
    }
}

/// Whether a slot holds the summary of a failure.
pub open spec fn holds_failure(r: Response) -> bool {
    r.summary matches Some(summary) && summary.kind == SummaryKind::Failure
}

/// The place of the last response before `index` that holds a failure, or
/// -1 where there is none.
pub open spec fn failure_before(responses: Seq<Response>, index: int) -> int
    decreases index,
{
    if index <= 0 || index > responses.len() {
        -1
    } else if holds_failure(responses[index - 1]) {
        index - 1
    } else {
        failure_before(responses, index - 1)
    }
}

/// Asking for the failure on account of which response `id` was ignored: the
/// session afterwards, and the summary, which leaves its slot if it is found.
pub open spec fn failure_fetched(s: Session, id: int) -> (Session, Option<Summary>) {
    let index = id - s.responses_done;
    let at = failure_before(s.responses, index);
    if at < 0 {
        (s, None)
    } else {
        (
            Session {
                responses: s.responses.update(at, Response { summary: None, ..s.responses[at] }),
                ..s
            },
            s.responses[at].summary,
        )
    }
}

/// The start of the request that ends at the marker of index `i`.
pub open spec fn request_start(markers: Seq<usize>, i: int) -> int {
    if i <= 0 {
        0
    } else {
        markers[i - 1] as int
    }
}

/// The requests in a send buffer, cut at the markers.
pub open spec fn requests_of(buffer: Seq<u8>, markers: Seq<usize>) -> Seq<Seq<u8>> {
    Seq::new(markers.len(), |i: int| buffer.subrange(request_start(markers, i), markers[i] as int))
}

/// The contents of a queue of slots.
pub open spec fn responses_of(slots: Seq<BoltResponse>) -> Seq<Response> {
    Seq::new(slots.len(), |i: int| slots[i]@)
}

/// What came in from the server, as the session holds it.
pub enum Incoming {
    Record(Data),
    Summary(BoltSummary),
}

impl View for Incoming {
    type V = Reply;

    open spec fn view(&self) -> Reply {
        match self {
            Incoming::Record(data) => Reply::Record(data.fields()),
            Incoming::Summary(summary) => Reply::Summary(summary@),
        }
    }
}

/// The metadata of a summary out of its fields.
fn summary_metadata(fields: Vec<Value>) -> (r: Result<Vec<(String, Value)>, BoltError>)
    ensures
        match r {
            Ok(metadata) => forall|kind: SummaryKind|
                #[trigger] summary_reply(kind, terms_of(fields@)) == Ok::<_, BoltError>(
                    Reply::Summary(Summary { kind, metadata: entries_of(metadata@) }),
                ),
            Err(e) => e == BoltError::Protocol(ProtocolError::UnexpectedShape) && forall|
                kind: SummaryKind,
            |
                #[trigger] summary_reply(kind, terms_of(fields@)) == Err::<Reply, _>(e),
        },
{
    let mut fields = fields;
    if fields.len() == 0 {
        let metadata: Vec<(String, Value)> = Vec::new();
        assert(entries_of(metadata@) =~= Seq::empty());
        Ok(metadata)
    } else {
        let ghost before = fields@;
        let first = fields.remove(0);
        proof {
            lemma_view(first);
            assert(terms_of(before)[0] == first@);
        }
        match first {
            Value::Dictionary(metadata) => Ok(metadata),
            _ => Err(BoltError::Protocol(ProtocolError::UnexpectedShape)),
        }
    }
}

/// What a decoded message says.
pub fn classify_value(message: Value) -> (r: Result<Incoming, BoltError>)
    ensures
        match r {
            Ok(incoming) => classify(message@) == Ok::<_, BoltError>(incoming@),
            Err(e) => classify(message@) == Err::<Reply, _>(e),
        },
{
    proof {
        lemma_view(message);
    }
    match message {
        Value::Structure { signature, fields } => {
            if signature == sig::SUCCESS {
                match summary_metadata(fields) {
                    Ok(metadata) => Ok(Incoming::Summary(BoltSummary::Success(metadata))),
                    Err(e) => Err(e),
                }
            } else if signature == sig::IGNORED {
                match summary_metadata(fields) {
                    Ok(metadata) => Ok(Incoming::Summary(BoltSummary::Ignored(metadata))),
                    Err(e) => Err(e),
                }
            } else if signature == sig::FAILURE {
                match summary_metadata(fields) {
                    Ok(metadata) => Ok(Incoming::Summary(BoltSummary::Failure(metadata))),
                    Err(e) => Err(e),
                }
            } else if signature == sig::RECORD {
                let mut fields = fields;
                if fields.len() == 0 {
                    let data: Vec<Value> = Vec::new();
                    assert(terms_of(data@) =~= Seq::empty());
                    Ok(Incoming::Record(Data::Record(data)))
                } else {
                    let ghost before = fields@;
                    let first = fields.remove(0);
                    proof {
                        lemma_view(first);
                        assert(terms_of(before)[0] == first@);
                    }
                    match first {
                        Value::List(data) => Ok(Incoming::Record(Data::Record(data))),
                        _ => Err(BoltError::Protocol(ProtocolError::UnexpectedShape)),
                    }
                }
            } else {
                Err(BoltError::Protocol(ProtocolError::UnknownSignature))
            }
        },
        _ => Err(BoltError::Protocol(ProtocolError::NotAStructure)),
    }
}

/// A session with a server, over a byte stream held in memory.
pub struct BoltStream {
    stream: ChunkStream,
    packer: Packer,
    end_of_request_markers: Vec<usize>,
    responses: Vec<BoltResponse>,
    responses_done: usize,
    current_response_index: usize,
    protocol_version: u32,
    defunct: bool,
}

impl View for BoltStream {
    type V = Session;

    closed spec fn view(&self) -> Session {
        Session {
            received: self.stream.received(),
            position: self.stream.position(),
            sent: self.stream.sent(),
            requests: requests_of(self.packer@, self.end_of_request_markers@),
            responses: responses_of(self.responses@),
            responses_done: self.responses_done as nat,
            cursor: self.current_response_index as nat,
            version: self.protocol_version,
            defunct: self.defunct,
        }
    }
}

/// Queues every request of a send buffer on the stream, each as one message.
fn send_requests(stream: &mut ChunkStream, buffer: &[u8], markers: &Vec<usize>)
    requires
        forall|i: int|
            0 <= i < markers.len() ==> request_start(markers@, i) <= #[trigger] markers[i]
                <= buffer.len(),
    ensures
        final(stream).sent() == old(stream).sent() + frames(requests_of(buffer@, markers@), 0),
        final(stream).received() == old(stream).received(),
        final(stream).position() == old(stream).position(),
{
    let ghost requests = requests_of(buffer@, markers@);
    let ghost before = stream.sent();
    let mut offset: usize = 0;
    let mut i: usize = 0;
    assert(stream.sent() + frames(requests, 0) =~= before + frames(requests, 0));
    while i < markers.len()
        invariant
            i <= markers.len(),
            requests == requests_of(buffer@, markers@),
            offset == request_start(markers@, i as int),
            forall|j: int|
                0 <= j < markers.len() ==> request_start(markers@, j) <= #[trigger] markers[j]
                    <= buffer.len(),
            stream.sent() + frames(requests, i as int) == before + frames(requests, 0),
            stream.received() == old(stream).received(),
            stream.position() == old(stream).position(),
        decreases markers.len() - i,
    {
        let mark: usize = markers[i];
        let ghost pre = stream.sent();
        stream.send(slice_subrange(buffer, offset, mark));
        assert(stream.sent() + frames(requests, i + 1) =~= pre + frames(requests, i as int));
        offset = mark;
        i += 1;
    }
    assert(stream.sent() =~= stream.sent() + frames(requests, i as int));
}

impl BoltStream {
    /// What holds of every session: the markers cut the send buffer in
    /// order and the last one stands at its end, the cursor is within the
    /// queue, and the identifiers of the responses in the queue are machine
    /// numbers.
    pub closed spec fn wf(&self) -> bool {
        &&& forall|i: int|
            0 <= i < self.end_of_request_markers.len() ==> request_start(
                self.end_of_request_markers@,
                i,
            ) <= #[trigger] self.end_of_request_markers[i] <= self.packer@.len()
        &&& request_start(self.end_of_request_markers@, self.end_of_request_markers.len() as int)
            == self.packer@.len()
        &&& self.current_response_index <= self.responses.len()
        &&& self.responses_done + self.responses.len() <= usize::MAX
    }

    /// In every session the cursor is within the queue and the identifiers
    /// of the queued responses are machine numbers.
    pub proof fn lemma_wf(&self)
        requires
            self.wf(),
        ensures
            self@.cursor <= self@.responses.len(),
            self@.responses_done + self@.responses.len() <= usize::MAX,
    {
    }

    /// The bytes that open the handshake, for the caller to send before
    /// anything else.
    pub fn handshake() -> (out: Vec<u8>)
        ensures
            out@ == handshake_bytes(),
    {
        let mut out: Vec<u8> = Vec::new();
        out.push(0x60);
        out.push(0x60);
        out.push(0xB0);
        out.push(0x17);
        let one = u32_to_be(1);
        let zero = u32_to_be(0);
        out.extend_from_slice(one.as_slice());
        out.extend_from_slice(zero.as_slice());
        out.extend_from_slice(zero.as_slice());
        out.extend_from_slice(zero.as_slice());
        assert(out@ =~= handshake_bytes());
        out
    }

    /// Opens a session from the server's answer to the handshake: four bytes
    /// that hold the chosen version, which must not be zero. Bytes behind
    /// them count as received.
    pub fn connect(reply: &[u8]) -> (r: Result<BoltStream, BoltError>)
        ensures
            match r {
                Ok(bolt) => reply.len() >= 4 && be32_value(reply@) != 0 && bolt.wf() && bolt@ == (
                Session {
                    received: reply@.skip(4),
                    position: 0,
                    sent: Seq::empty(),
                    requests: Seq::empty(),
                    responses: Seq::empty(),
                    responses_done: 0,
                    cursor: 0,
                    version: be32_value(reply@),
                    defunct: false,
                }),
                Err(e) => if reply.len() < 4 {
                    e matches BoltError::Handshake(text) && text@ == "Error on read"@
                } else {
                    be32_value(reply@) == 0 && e == BoltError::HandshakeRejected
                },
            },
    {
        if reply.len() < 4 {
            return Err(BoltError::Handshake(String::from_str("Error on read")));
        }
        let protocol_version = be_to_u32(reply);
        if protocol_version == 0 {
            return Err(BoltError::HandshakeRejected);
        }
        let mut rest: Vec<u8> = Vec::new();
        rest.extend_from_slice(slice_subrange(reply, 4, reply.len()));
        assert(rest@ =~= reply@.skip(4));
        let bolt = BoltStream {
            stream: ChunkStream::new(rest),
            packer: Packer::new(),
            end_of_request_markers: Vec::new(),
            responses: Vec::new(),
            responses_done: 0,
            current_response_index: 0,
            protocol_version,
            defunct: false,
        };
        assert(bolt@.requests =~= Seq::empty());
        assert(bolt@.responses =~= Seq::empty());
        Ok(bolt)
    }

    /// The protocol version that the server chose.
    pub fn protocol_version(&self) -> (version: u32)
        ensures
            version == self@.version,
    {
        self.protocol_version
    }

    /// Whether a fatal error has put the session out of use.
    pub fn is_defunct(&self) -> (defunct: bool)
        ensures
            defunct == self@.defunct,
    {
        self.defunct
    }

    /// Whether the queue can take `n` more responses.
    pub fn has_room(&self, n: usize) -> (ok: bool)
        requires
            self.wf(),
        ensures
            ok == room(self@, n as nat),
    {
        n <= usize::MAX - (self.responses_done + self.responses.len())
    }

    /// Puts the session out of use.
    pub fn abandon(&mut self)
        requires
            old(self).wf(),
        ensures
            final(self).wf(),
            final(self)@ == (Session { defunct: true, ..old(self)@ }),
    {
        self.defunct = true;
    }

    /// Adds bytes that arrived from the server to what was received.
    pub fn feed(&mut self, bytes: &[u8])
        requires
            old(self).wf(),
        ensures
            final(self).wf(),
            final(self)@ == (Session { received: old(self)@.received + bytes@, ..old(self)@ }),
    {
        self.stream.feed(bytes);
    }

    /// Hands out the bytes that are waiting to go to the server.
    pub fn take_sent(&mut self) -> (out: Vec<u8>)
        requires
            old(self).wf(),
        ensures
            final(self).wf(),
            out@ == old(self)@.sent,
            final(self)@ == (Session { sent: Seq::empty(), ..old(self)@ }),
    {
        self.stream.take_sent()
    }

    /// Packs a message at the end of the send buffer and marks its end.
    fn pack_message(&mut self, message: &Value) -> (r: Result<(), BoltError>)
        requires
            old(self).wf(),
        ensures
            final(self).wf(),
            match r {
                Ok(()) => encodable(message@) && final(self)@ == (Session {
                    requests: old(self)@.requests.push(encode(message@)),
                    ..old(self)@
                }),
                Err(e) => e == BoltError::Codec(CodecError::EncodeTooLarge) && !encodable(
                    message@,
                ) && final(self)@ == old(self)@,
            },
    {
        let ghost buffer = self.packer@;
        let ghost markers = self.end_of_request_markers@;
        match self.packer.pack(message) {
            Ok(()) => {
                let end = self.packer.len();
                self.end_of_request_markers.push(end);
                proof {
                    let after = self.end_of_request_markers@;
                    assert forall|i: int| 0 <= i < after.len() implies request_start(after, i)
                        <= #[trigger] after[i] <= self.packer@.len() by {
                        if i < markers.len() {
                            assert(request_start(markers, i) <= markers[i] <= buffer.len());
                        } else if i > 0 {
                            assert(request_start(markers, i - 1) <= markers[i - 1] <= buffer.len());
                        }
                    }
                    let new = requests_of(self.packer@, after);
                    let want = requests_of(buffer, markers).push(encode(message@));
                    assert(new.len() == want.len());
                    assert forall|i: int| 0 <= i < new.len() implies new[i] == want[i] by {
                        if i < markers.len() {
                            assert(request_start(markers, i) <= markers[i] <= buffer.len());
                            assert(new[i] =~= want[i]);
                        } else {
                            if i > 0 {
                                assert(request_start(markers, i - 1) <= markers[i - 1]
                                    <= buffer.len());
                            }
                            assert(new[i] =~= encode(message@));
                        }
                    }
                    assert(new =~= want);
                }
                Ok(())
            },
            Err(_) => Err(BoltError::Codec(CodecError::EncodeTooLarge)),
        }
    }

    /// Packs a message that has a signature and no fields.
    fn pack_bare(&mut self, signature: u8) -> (r: Result<(), BoltError>)
        requires
            old(self).wf(),
        ensures
            final(self).wf(),
            r is Ok,
            final(self)@ == (Session {
                requests: old(self)@.requests.push(encode(bare_message(signature))),
                ..old(self)@
            }),
    {
        let message = Value::Structure { signature, fields: Vec::new() };
        proof {
            lemma_view(message);
            assert(terms_of(Seq::<Value>::empty()) =~= Seq::empty());
        }
        self.pack_message(&message)
    }

    /// Packs an `INIT` message, with which a session begins.
    pub fn init(&mut self, user_agent: &str, user: &str, password: &str) -> (r: Result<
        (),
        BoltError,
    >)
        requires
            old(self).wf(),
        ensures
            final(self).wf(),
            match r {
                Ok(()) => encodable(init_message(user_agent@, user@, password@)) && final(self)@
                    == (Session {
                    requests: old(self)@.requests.push(
                        encode(init_message(user_agent@, user@, password@)),
                    ),
                    ..old(self)@
                }),
                Err(e) => e == BoltError::Codec(CodecError::EncodeTooLarge) && !encodable(
                    init_message(user_agent@, user@, password@),
                ) && final(self)@ == old(self)@,
            },
    {
        let mut auth: Vec<(String, Value)> = Vec::new();
        auth.push((String::from_str("scheme"), Value::String(String::from_str("basic"))));
        auth.push((String::from_str("principal"), Value::String(String::from_str(user))));
        auth.push((String::from_str("credentials"), Value::String(String::from_str(password))));
        let auth_value = Value::Dictionary(auth);
        let mut fields: Vec<Value> = Vec::new();
        fields.push(Value::String(String::from_str(user_agent)));
        fields.push(auth_value);
        let message = Value::Structure { signature: sig::INIT, fields };
        proof {
            lemma_view(auth_value);
            lemma_view(message);
            assert(entries_of(auth@) =~= seq![
                ("scheme"@, Term::String("basic"@)),
                ("principal"@, Term::String(user@)),
                ("credentials"@, Term::String(password@)),
            ]);
            assert(terms_of(fields@) =~= seq![Term::String(user_agent@), auth_value@]);
        }
        self.pack_message(&message)
    }

    /// Packs an `ACK_FAILURE` message.
    pub fn ack_failure(&mut self) -> (r: Result<(), BoltError>)
        requires
            old(self).wf(),
        ensures
            final(self).wf(),
            r is Ok,
            final(self)@ == (Session {
                requests: old(self)@.requests.push(encode(bare_message(sig::ACK_FAILURE))),
                ..old(self)@
            }),
    {
        self.pack_bare(sig::ACK_FAILURE)
    }

    /// Packs a `RESET` message.
    pub fn reset(&mut self) -> (r: Result<(), BoltError>)
        requires
            old(self).wf(),
        ensures
            final(self).wf(),
            r is Ok,
            final(self)@ == (Session {
                requests: old(self)@.requests.push(encode(bare_message(sig::RESET))),
                ..old(self)@
            }),
    {
        self.pack_bare(sig::RESET)
    }

    /// Packs a `RUN` message. Without parameters an empty dictionary goes out.
    pub fn run(&mut self, statement: &str, parameters: Option<Value>) -> (r: Result<(), BoltError>)
        requires
            old(self).wf(),
        ensures
            final(self).wf(),
            match r {
                Ok(()) => encodable(run_message(statement@, parameters_term(parameters)))
                    && final(self)@ == (Session {
                    requests: old(self)@.requests.push(
                        encode(run_message(statement@, parameters_term(parameters))),
                    ),
                    ..old(self)@
                }),
                Err(e) => e == BoltError::Codec(CodecError::EncodeTooLarge) && !encodable(
                    run_message(statement@, parameters_term(parameters)),
                ) && final(self)@ == old(self)@,
            },
    {
        let given = match parameters {
            Some(v) => v,
            None => {
                let none = Value::Dictionary(Vec::new());
                proof {
                    lemma_view(none);
                    assert(entries_of(Seq::<(String, Value)>::empty()) =~= Seq::empty());
                }
                none
            },
        };
        let ghost given_term = given@;
        let mut fields: Vec<Value> = Vec::new();
        fields.push(Value::String(String::from_str(statement)));
        fields.push(given);
        let message = Value::Structure { signature: sig::RUN, fields };
        proof {
            lemma_view(message);
            assert(terms_of(fields@) =~= seq![Term::String(statement@), given_term]);
        }
        self.pack_message(&message)
    }

    /// Packs a `DISCARD_ALL` message.
    pub fn discard_all(&mut self) -> (r: Result<(), BoltError>)
        requires
            old(self).wf(),
        ensures
            final(self).wf(),
            r is Ok,
            final(self)@ == (Session {
                requests: old(self)@.requests.push(encode(bare_message(sig::DISCARD_ALL))),
                ..old(self)@
            }),
    {
        self.pack_bare(sig::DISCARD_ALL)
    }

    /// Packs a `PULL_ALL` message.
    pub fn pull_all(&mut self) -> (r: Result<(), BoltError>)
        requires
            old(self).wf(),
        ensures
            final(self).wf(),
            r is Ok,
            final(self)@ == (Session {
                requests: old(self)@.requests.push(encode(bare_message(sig::PULL_ALL))),
                ..old(self)@
            }),
    {
        self.pack_bare(sig::PULL_ALL)
    }

    /// Sends all packed requests: each goes to the stream as one framed
    /// message, and the send buffer is empty afterwards.
    pub fn send(&mut self)
        requires
            old(self).wf(),
        ensures
            final(self).wf(),
            final(self)@ == (Session {
                sent: old(self)@.sent + frames(old(self)@.requests, 0),
                requests: Seq::empty(),
                ..old(self)@
            }),
    {
        send_requests(&mut self.stream, self.packer.as_slice(), &self.end_of_request_markers);
        self.packer.clear();
        self.end_of_request_markers.clear();
        assert(self@.requests =~= Seq::empty());
    }

    /// Gives the next request a slot whose response the caller will read,
    /// and returns the identifier of that response.
    pub fn collect_response(&mut self) -> (id: usize)
        requires
            old(self).wf(),
            old(self)@.responses_done + old(self)@.responses.len() < usize::MAX,
        ensures
            final(self).wf(),
            id == old(self)@.responses_done + old(self)@.responses.len(),
            final(self)@ == (Session {
                responses: old(self)@.responses.push(empty_response(false)),
                ..old(self)@
            }),
    {
        self.responses.push(BoltResponse::new());
        assert(self@.responses =~= old(self)@.responses.push(empty_response(false)));
        self.responses_done + self.responses.len() - 1
    }

    /// Gives the next request a slot whose response the caller will not read.
    pub fn ignore_response(&mut self)
        requires
            old(self).wf(),
            old(self)@.responses_done + old(self)@.responses.len() < usize::MAX,
        ensures
            final(self).wf(),
            final(self)@ == (Session {
                responses: old(self)@.responses.push(empty_response(true)),
                ..old(self)@
            }),
    {
        self.responses.push(BoltResponse::done());
        assert(self@.responses =~= old(self)@.responses.push(empty_response(true)));
    }

    /// Drops the responses that are done from the head of the queue, as far
    /// as the cursor has passed them. The identifiers of the others stay.
    pub fn compact_responses(&mut self)
        requires
            old(self).wf(),
        ensures
            final(self).wf(),
            final(self)@ == compacted(old(self)@),
            final(self)@.responses_done + final(self)@.responses.len() == old(self)@.responses_done
                + old(self)@.responses.len(),
    {
        while self.current_response_index > 0 && self.responses.len() > 0
            && self.responses[0].done
            invariant
                self.wf(),
                compacted(self@) == compacted(old(self)@),
                self@.responses_done + self@.responses.len() == old(self)@.responses_done + old(
                    self,
                )@.responses.len(),
            decreases self.responses.len(),
        {
            let ghost before = self@;
            let _ = self.responses.remove(0);
            self.responses_done += 1;
            self.current_response_index -= 1;
            assert(self@.responses =~= before.responses.skip(1));
        }
    }

    /// Gives up every response that is in the queue before response
    /// `response_id`: each counts as done, whatever it holds.
    pub fn discard_before(&mut self, response_id: usize)
        requires
            old(self).wf(),
        ensures
            final(self).wf(),
            final(self)@ == done_before(old(self)@, response_id - old(self)@.responses_done),
    {
        let end: usize = if response_id < self.responses_done {
            0
        } else if response_id - self.responses_done > self.responses.len() {
            self.responses.len()
        } else {
            response_id - self.responses_done
        };
        let mut i: usize = 0;
        assert(self@.responses =~= done_before(old(self)@, 0).responses);
        while i < end
            invariant
                i <= end <= self.responses.len(),
                self.wf(),
                self@ == done_before(old(self)@, i as int),
                self@.responses.len() == old(self)@.responses.len(),
            decreases end - i,
        {
            let ghost before = self@;
            let response = &mut self.responses[i];
            response.done = true;
            proof {
                let after = self@.responses;
                let want = done_before(old(self)@, i + 1).responses;
                assert(after.len() == want.len());
                assert forall|j: int| 0 <= j < after.len() implies after[j] == want[j] by {
                    if j != i {
                        assert(after[j] == before.responses[j]);
                    } else {
                        assert(after[j] == Response { done: true, ..before.responses[j] });
                    }
                }
                assert(after =~= want);
            }
            i += 1;
        }
        assert(self@.responses =~= done_before(
            old(self)@,
            response_id - old(self)@.responses_done,
        ).responses);
    }

    /// Reads the next message from the server into the response that is
    /// being filled.
    pub fn fetch(&mut self) -> (r: Result<(), BoltError>)
        requires
            old(self).wf(),
        ensures
            final(self).wf(),
            final(self)@ == fetched(old(self)@).0,
            r == fetched(old(self)@).1,
            final(self)@.received == old(self)@.received,
            final(self)@.responses.len() == old(self)@.responses.len(),
            final(self)@.responses_done == old(self)@.responses_done,
            r is Ok ==> old(self)@.position < final(self)@.position <= final(self)@.received.len(),
    {
        if self.defunct {
            return Err(BoltError::Defunct);
        }
        let message = match self.stream.recv() {
            Ok(message) => message,
            Err(_) => {
                return Err(BoltError::Socket(ChunkError::UnexpectedEof));
            },
        };
        let value = match unpack(message.as_slice()) {
            Ok(value) => value,
            Err(e) => {
                self.defunct = true;
                return Err(BoltError::Codec(e));
            },
        };
        let incoming = match classify_value(value) {
            Ok(incoming) => incoming,
            Err(e) => {
                self.defunct = true;
                return Err(e);
            },
        };
        if self.current_response_index >= self.responses.len() {
            self.defunct = true;
            return Err(BoltError::Protocol(ProtocolError::OutOfSequence));
        }
        let ghost before = self@;
        let ghost reply = incoming@;
        let index = self.current_response_index;
        let response = &mut self.responses[index];
        match incoming {
            Incoming::Record(data) => {
                let ghost rows = rows_of(response.detail@);
                response.detail.push_back(data);
                assert(rows_of(response.detail@) =~= rows.push(data.fields()));
            },
            Incoming::Summary(summary) => {
                response.summary = Some(summary);
                self.current_response_index = index + 1;
            },
        }
        assert(self@.responses =~= deliver(before, reply).responses);
        Ok(())
    }

    /// Hands out the next row of response `response_id`, fetching as far as
    /// it takes; `None` once the response is complete and has no row left.
    pub fn fetch_record(&mut self, response_id: usize) -> (r: Result<Option<Data>, BoltError>)
        requires
            old(self).wf(),
        ensures
            final(self).wf(),
            final(self)@ == record_fetched(old(self)@, response_id as int).0,
            final(self)@.responses_done + final(self)@.responses.len() == old(self)@.responses_done
                + old(self)@.responses.len(),
            final(self)@.responses_done == old(self)@.responses_done,
            match r {
                Ok(Some(data)) => record_fetched(old(self)@, response_id as int).1 == Ok::<
                    _,
                    BoltError,
                >(Some(data.fields())) && row_taken(old(self)@, final(self)@, response_id as int),
                Ok(None) => record_fetched(old(self)@, response_id as int).1 == Ok::<
                    Option<Seq<Term>>,
                    BoltError,
                >(None),
                Err(e) => record_fetched(old(self)@, response_id as int).1 == Err::<
                    Option<Seq<Term>>,
                    _,
                >(e),
            },
    {
        if response_id < self.responses_done || response_id - self.responses_done
            >= self.responses.len() {
            return Err(BoltError::UnknownResponse);
        }
        let index: usize = response_id - self.responses_done;
        while self.responses[index].detail.len() == 0 && self.current_response_index <= index
            invariant
                self.wf(),
                index < self.responses.len(),
                index == response_id - old(self)@.responses_done,
                self@.responses_done == old(self)@.responses_done,
                self@.responses.len() == old(self)@.responses.len(),
                fetched_row(self@, index as int) == fetched_row(old(self)@, index as int),
                self@.received == old(self)@.received,
                self@ == old(self)@ || old(self)@.position < self@.position
                    <= self@.received.len(),
            decreases self@.received.len() - self@.position,
        {
            let ghost before = self@;
            match self.fetch() {
                Ok(()) => {
                    assert(fetched_row(before, index as int) == fetched_row(self@, index as int));
                },
                Err(e) => {
                    assert(fetched_row(before, index as int) == (self@, Err::<(), _>(e)));
                    return Err(e);
                },
            }
        }
        let response = &mut self.responses[index];
        let ghost rows = rows_of(response.detail@);
        let row = response.detail.pop_front();
        proof {
            if rows.len() > 0 {
                assert(rows_of(response.detail@) =~= rows.skip(1));
            }
        }
        assert(self@.responses =~= record_fetched(old(self)@, response_id as int).0.responses);
        Ok(row)
    }

    /// Hands out the summary of response `response_id`, fetching as far as
    /// it takes, and marks the response as done. A summary is handed out
    /// once: `None` if it was handed out before.
    pub fn fetch_summary(&mut self, response_id: usize) -> (r: Result<
        Option<BoltSummary>,
        BoltError,
    >)
        requires
            old(self).wf(),
        ensures
            final(self).wf(),
            final(self)@ == summary_fetched(old(self)@, response_id as int).0,
            final(self)@.responses_done + final(self)@.responses.len() == old(self)@.responses_done
                + old(self)@.responses.len(),
            final(self)@.responses_done == old(self)@.responses_done,
            match r {
                Ok(summary) => summary_fetched(old(self)@, response_id as int).1 == Ok::<
                    _,
                    BoltError,
                >(summary_view(summary)),
                Err(e) => summary_fetched(old(self)@, response_id as int).1 == Err::<
                    Option<Summary>,
                    _,
                >(e),
            },
    {
        if response_id < self.responses_done || response_id - self.responses_done
            >= self.responses.len() {
            return Err(BoltError::UnknownResponse);
        }
        let index: usize = response_id - self.responses_done;
        while self.current_response_index <= index
            invariant
                self.wf(),
                index < self.responses.len(),
                index == response_id - old(self)@.responses_done,
                self@.responses_done == old(self)@.responses_done,
                self@.responses.len() == old(self)@.responses.len(),
                fetched_past(self@, index as int) == fetched_past(old(self)@, index as int),
            decreases self@.received.len() - self@.position,
        {
            let ghost before = self@;
            match self.fetch() {
                Ok(()) => {
                    assert(fetched_past(before, index as int) == fetched_past(self@, index as int));
                },
                Err(e) => {
                    assert(fetched_past(before, index as int) == (self@, Err::<(), _>(e)));
                    return Err(e);
                },
            }
        }
        let response = &mut self.responses[index];
        response.done = true;
        let summary = response.summary.take();
        assert(self@.responses =~= summary_fetched(old(self)@, response_id as int).0.responses);
        Ok(summary)
    }

    /// Hands out the failure on account of which response `response_id` was
    /// ignored: the summary of the last response before it that holds one.
    /// `None` if no such summary is in the queue.
    pub fn fetch_failure(&mut self, response_id: usize) -> (r: Option<BoltSummary>)
        requires
            old(self).wf(),
        ensures
            final(self).wf(),
            final(self)@ == failure_fetched(old(self)@, response_id as int).0,
            final(self)@.responses_done + final(self)@.responses.len() == old(self)@.responses_done
                + old(self)@.responses.len(),
            final(self)@.responses_done == old(self)@.responses_done,
            summary_view(r) == failure_fetched(old(self)@, response_id as int).1,
    {
        if response_id < self.responses_done || response_id - self.responses_done
            > self.responses.len() {
            return None;
        }
        let index: usize = response_id - self.responses_done;
        let mut at: usize = index;
        while at > 0
            invariant
                at <= index <= self.responses.len(),
                index == response_id - self@.responses_done,
                self.wf(),
                self@ == old(self)@,
                failure_before(self@.responses, at as int) == failure_before(
                    self@.responses,
                    index as int,
                ),
            decreases at,
        {
            let found = match &self.responses[at - 1].summary {
                Some(BoltSummary::Failure(_)) => true,
                _ => false,
            };
            assert(self@.responses[at - 1] == self.responses[at - 1]@);
            assert(found == holds_failure(self@.responses[at - 1]));
            if found {
                assert(failure_before(self@.responses, index as int) == at - 1);
                let response = &mut self.responses[at - 1];
                let summary = response.summary.take();
                assert(self@.responses =~= failure_fetched(
                    old(self)@,
                    response_id as int,
                ).0.responses);
                return summary;
            }
            at -= 1;
        }
        None
    }
}

} // verus!
