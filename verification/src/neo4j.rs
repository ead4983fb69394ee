//! Results and transactions, as a caller of the driver sees them.

use crate::bolt::{
    flushed, init_message, lemma_run_message, opened, record_fetched, room, summary_view,
    with_request, with_slot, BoltError, BoltSummary, Summary, SummaryKind,
};
use crate::bytes::be32_value;
use crate::cypher::{
    begin_parameters, drained, lemma_plain_text, user_agent, with_statement, Cypher,
    CypherStream, StatementResult,
};
use crate::graph::{strings_of, texts, texts_of};
use crate::pack::encodable;
use crate::sig;
use crate::value::{entries_of, lemma_view, lookup, CodecError, Data, Term, Value};
use vstd::prelude::*;
use vstd::string::StringExecFns;

verus! {

/// Why an operation of the driver failed.
#[derive(Debug, PartialEq, Eq)]
pub enum Neo4jError {
    /// The session could not be opened.
    ConnectFailure(BoltError),
    /// The server refused the commit; this is the metadata of its answer.
    CommitFailure(Vec<(String, Value)>),
    /// The commit was not answered with a summary of its own.
    CommitNoSummary,
    /// The server refused the statement; this is the metadata of its answer.
    RunFailure(Vec<(String, Value)>),
    /// The transaction was committed or rolled back before.
    ClosedTransaction,
}

/// The names of the fields that a header gives under `fields`: a list of
/// strings.
pub open spec fn field_names(header: Seq<(Seq<char>, Term)>) -> Option<Seq<Seq<char>>> {
    match lookup(header, "fields"@) {
        Some(Term::List(items)) => texts_of(items),
        _ => None,
    }
}

/// The rows of a statement that the server accepted.
#[derive(Debug, PartialEq, Eq)]
pub struct QueryResult {
    src: StatementResult,
}

impl QueryResult {
    /// The statement whose rows these are.
    pub closed spec fn source(&self) -> StatementResult {
        self.src
    }

    /// The rows of the given statement.
    pub fn new(src: StatementResult) -> (result: QueryResult)
        ensures
            result.source() == src,
    {
        QueryResult { src }
    }

    /// Gives the statement back.
    pub fn into_source(self) -> (src: StatementResult)
        ensures
            src == self.source(),
    {
        self.src
    }

    /// The names of the fields of each row; `None` where the header does
    /// not hold them as a list of strings.
    pub fn keys(&self) -> (out: Option<Vec<String>>)
        ensures
            match out {
                Some(names) => field_names(self.source().header()) == Some(texts(names@)),
                None => field_names(self.source().header()) is None,
            },
    {
        match self.src.keys() {
            Some(value) => {
                proof {
                    lemma_view(*value);
                }
                match value {
                    Value::List(items) => strings_of(items),
                    _ => None,
                }
            },
            None => None,
        }
    }

    /// The next row; `None` when there is none left.
    pub fn next(&mut self, conn: &mut CypherStream) -> (r: Result<Option<Data>, BoltError>)
        requires
            old(conn).wf(),
        ensures
            final(conn).wf(),
            final(self).source() == old(self).source(),
            final(conn)@ == (Cypher {
                bolt: record_fetched(old(conn)@.bolt, old(self).source().body_id()).0,
                ..old(conn)@
            }),
            match r {
                Ok(Some(data)) => record_fetched(old(conn)@.bolt, old(self).source().body_id()).1
                    == Ok::<_, BoltError>(Some(data.fields())),
                Ok(None) => record_fetched(old(conn)@.bolt, old(self).source().body_id()).1
                    == Ok::<Option<Seq<Term>>, BoltError>(None),
                Err(e) => record_fetched(old(conn)@.bolt, old(self).source().body_id()).1 == Err::<
                    Option<Seq<Term>>,
                    _,
                >(e),
            },
    {
        conn.fetch(&self.src)
    }

    /// Ends the result: drops the rows that were not read and reads the
    /// summary, so that the session is ready for the next statement.
    pub fn close(self, conn: &mut CypherStream) -> (r: Result<Option<BoltSummary>, BoltError>)
        requires
            old(conn).wf(),
            room(old(conn)@.bolt, 1),
        ensures
            final(conn).wf(),
            final(conn)@ == (Cypher {
                bolt: drained(old(conn)@.bolt, self.source().body_id()).0,
                ..old(conn)@
            }),
            match r {
                Ok(summary) => drained(old(conn)@.bolt, self.source().body_id()).1 == Ok::<
                    _,
                    BoltError,
                >(summary_view(summary)),
                Err(e) => drained(old(conn)@.bolt, self.source().body_id()).1 == Err::<
                    Option<Summary>,
                    _,
                >(e),
            },
    {
        conn.drain(&self.src)
    }
}

/// What the answer to a commit means to the caller: the metadata of a
/// success, or the reason why there is none.
pub open spec fn commit_outcome(summary: Option<Summary>) -> Result<
    Seq<(Seq<char>, Term)>,
    Option<Seq<(Seq<char>, Term)>>,
> {
    match summary {
        Some(s) => match s.kind {
            SummaryKind::Success => Ok(s.metadata),
            SummaryKind::Failure => Err(Some(s.metadata)),
            SummaryKind::Ignored => Err(None),
        },
        None => Err(None),
    }
}

/// A transaction that is open until it is committed or rolled back.
#[derive(Debug, PartialEq, Eq)]
pub struct Neo4jTransaction {
    closed: bool,
}

impl Neo4jTransaction {
    /// Whether the transaction was committed or rolled back.
    pub closed spec fn is_closed(&self) -> bool {
        self.closed
    }

    /// Whether the transaction was committed or rolled back.
    pub fn closed(&self) -> (closed: bool)
        ensures
            closed == self.is_closed(),
    {
        self.closed
    }

    /// Opens a transaction: packs its beginning, which goes out with the
    /// next statement.
    pub fn new(conn: &mut CypherStream) -> (tx: Neo4jTransaction)
        requires
            old(conn).wf(),
            room(old(conn)@.bolt, 2),
        ensures
            final(conn).wf(),
            !tx.is_closed(),
            final(conn)@ == (Cypher {
                bolt: with_statement(
                    old(conn)@.bolt,
                    "BEGIN"@,
                    begin_parameters(None),
                    sig::DISCARD_ALL,
                    true,
                    true,
                ),
                ..old(conn)@
            }),
    {
        proof {
            reveal_strlit("BEGIN");
            lemma_plain_text("BEGIN"@);
            lemma_run_message("BEGIN"@, begin_parameters(None));
        }
        let _ = conn.begin_transaction(None);
        Neo4jTransaction { closed: false }
    }

    /// Commits the transaction: packs and queues the commit and returns the
    /// identifier of its answer. A transaction that is closed is refused,
    /// and nothing goes to the wire.
    pub fn commit(&mut self, conn: &mut CypherStream) -> (r: Result<usize, Neo4jError>)
        requires
            old(conn).wf(),
            room(old(conn)@.bolt, 2),
        ensures
            final(conn).wf(),
            final(self).is_closed(),
            match r {
                Ok(body) => !old(self).is_closed() && body == old(conn)@.bolt.responses_done + old(
                    conn,
                )@.bolt.responses.len() + 1 && final(conn)@ == (Cypher {
                    bolt: flushed(
                        with_statement(
                            old(conn)@.bolt,
                            "COMMIT"@,
                            Term::Dictionary(Seq::empty()),
                            sig::DISCARD_ALL,
                            true,
                            false,
                        ),
                    ),
                    ..old(conn)@
                }),
                Err(e) => old(self).is_closed() && e == Neo4jError::ClosedTransaction && final(conn)@ == old(conn)@,
            },
    {
        if self.closed {
            return Err(Neo4jError::ClosedTransaction);
        }
        self.closed = true;
        Ok(conn.commit_transaction())
    }

    /// Rolls the transaction back: packs and queues the rollback and returns
    /// the identifier of its answer. A transaction that is closed is
    /// refused, and nothing goes to the wire.
    pub fn rollback(&mut self, conn: &mut CypherStream) -> (r: Result<usize, Neo4jError>)
        requires
            old(conn).wf(),
            room(old(conn)@.bolt, 2),
        ensures
            final(conn).wf(),
            final(self).is_closed(),
            match r {
                Ok(body) => !old(self).is_closed() && body == old(conn)@.bolt.responses_done + old(
                    conn,
                )@.bolt.responses.len() + 1 && final(conn)@ == (Cypher {
                    bolt: flushed(
                        with_statement(
                            old(conn)@.bolt,
                            "ROLLBACK"@,
                            Term::Dictionary(Seq::empty()),
                            sig::DISCARD_ALL,
                            true,
                            false,
                        ),
                    ),
                    ..old(conn)@
                }),
                Err(e) => old(self).is_closed() && e == Neo4jError::ClosedTransaction && final(conn)@ == old(conn)@,
            },
    {
        if self.closed {
            return Err(Neo4jError::ClosedTransaction);
        }
        self.closed = true;
        Ok(conn.rollback_transaction())
    }

    /// What the answer to a commit means to the caller: the metadata of a
    /// success, the failure that the server reported, or the lack of a
    /// summary.
    pub fn outcome(summary: Option<BoltSummary>) -> (r: Result<Vec<(String, Value)>, Neo4jError>)
        ensures
            match r {
                Ok(metadata) => commit_outcome(summary_view(summary)) == Ok::<
                    _,
                    Option<Seq<(Seq<char>, Term)>>,
                >(entries_of(metadata@)),
                Err(Neo4jError::CommitFailure(metadata)) => commit_outcome(summary_view(summary))
                    == Err::<Seq<(Seq<char>, Term)>, _>(Some(entries_of(metadata@))),
                Err(e) => e == Neo4jError::CommitNoSummary && commit_outcome(summary_view(summary))
                    == Err::<Seq<(Seq<char>, Term)>, Option<Seq<(Seq<char>, Term)>>>(None),
            },
    {
        match summary {
            Some(BoltSummary::Success(metadata)) => Ok(metadata),
            Some(BoltSummary::Failure(metadata)) => Err(Neo4jError::CommitFailure(metadata)),
            Some(BoltSummary::Ignored(_)) => Err(Neo4jError::CommitNoSummary),
            None => Err(Neo4jError::CommitNoSummary),
        }
    }
}

/// Where drivers are made.
#[derive(Clone, Copy, Debug, PartialEq, Eq, Structural)]
pub struct GraphDatabase {}

impl GraphDatabase {
    /// A driver for the server at `address`, with the given credentials.
    pub fn driver(address: &str, user: &str, password: &str) -> (driver: DirectDriver)
        ensures
            driver.address_text() == address@,
            driver.user_text() == user@,
            driver.password_text() == password@,
    {
        DirectDriver::new(address, user, password)
    }
}

/// What it takes to open sessions with one server.
#[derive(Debug, PartialEq, Eq)]
pub struct DirectDriver {
    address: String,
    user: String,
    password: String,
}

impl DirectDriver {
    /// The address of the server.
    pub closed spec fn address_text(&self) -> Seq<char> {
        self.address@
    }

    /// The name of the user.
    pub closed spec fn user_text(&self) -> Seq<char> {
        self.user@
    }

    /// The password of the user.
    pub closed spec fn password_text(&self) -> Seq<char> {
        self.password@
    }

    /// A driver for the server at `address`, with the given credentials.
    pub fn new(address: &str, user: &str, password: &str) -> (driver: DirectDriver)
        ensures
            driver.address_text() == address@,
            driver.user_text() == user@,
            driver.password_text() == password@,
    {
        DirectDriver {
            address: String::from_str(address),
            user: String::from_str(user),
            password: String::from_str(password),
        }
    }

    /// The address of the server.
    pub fn address(&self) -> (text: &str)
        ensures
            text@ == self.address_text(),
    {
        self.address.as_str()
    }

    /// The name of the user.
    pub fn user(&self) -> (text: &str)
        ensures
            text@ == self.user_text(),
    {
        self.user.as_str()
    }

    /// The password of the user.
    pub fn password(&self) -> (text: &str)
        ensures
            text@ == self.password_text(),
    {
        self.password.as_str()
    }

    /// Opens a session from the server's answer to the handshake, with the
    /// credentials of this driver: as [`CypherStream::connect`] does.
    pub fn session(&self, reply: &[u8]) -> (r: Result<CypherStream, BoltError>)
        ensures
            match r {
                Ok(c) => c.wf() && reply.len() >= 4 && be32_value(reply@) != 0 && encodable(
                    init_message(user_agent(), self.user_text(), self.password_text()),
                ) && c@ == (Cypher {
                    bolt: flushed(
                        with_slot(
                            with_request(
                                opened(reply@),
                                init_message(user_agent(), self.user_text(), self.password_text()),
                            ),
                            false,
                        ),
                    ),
                    server_version: None,
                    bookmark: None,
                }),
                Err(e) => if reply.len() < 4 {
                    e matches BoltError::Handshake(text) && text@ == "Error on read"@
                } else if be32_value(reply@) == 0 {
                    e == BoltError::HandshakeRejected
                } else {
                    e == BoltError::Codec(CodecError::EncodeTooLarge) && !encodable(
                        init_message(user_agent(), self.user_text(), self.password_text()),
                    )
                },
            },
    {
        CypherStream::connect(reply, self.user.as_str(), self.password.as_str())
    }
}

} // verus!
