use rusty_bolt::bolt::{BoltError, BoltStream, BoltSummary, ProtocolError};
use rusty_bolt::chunk::{read_frame, write_frame, ChunkError};
use rusty_bolt::cypher::{text_of, CommitResult, CypherStream};
use rusty_bolt::graph::{Node, Rel};
use rusty_bolt::neo4j::{Neo4jError, Neo4jTransaction, QueryResult};
use rusty_bolt::sig;
use rusty_bolt::unpack::unpack;
use rusty_bolt::value::{Data, Value};

#[test]
fn cypher_it_works() {}

fn text(s: &str) -> Value {
    Value::String(String::from(s))
}

fn entry(key: &str, value: Value) -> (String, Value) {
    (String::from(key), value)
}

fn message(signature: u8, fields: Vec<Value>) -> Vec<u8> {
    let body = Value::Structure { signature, fields }.pack_into().unwrap();
    let mut out = Vec::new();
    write_frame(&body, &mut out);
    out
}

fn success(metadata: Vec<(String, Value)>) -> Vec<u8> {
    message(sig::SUCCESS, vec![Value::Dictionary(metadata)])
}

fn failure(code: &str, text_: &str) -> Vec<u8> {
    message(sig::FAILURE, vec![Value::Dictionary(vec![entry("code", text(code)), entry("message", text(text_))])])
}

fn ignored() -> Vec<u8> {
    message(sig::IGNORED, vec![Value::Dictionary(vec![])])
}

fn record(values: Vec<Value>) -> Vec<u8> {
    message(sig::RECORD, vec![Value::List(values)])
}

fn requests(wire: &[u8]) -> Vec<Value> {
    let mut out = Vec::new();
    let mut pos = 0;
    while pos < wire.len() {
        let (body, next) = read_frame(wire, pos).unwrap();
        out.push(unpack(&body).unwrap());
        pos = next;
    }
    out
}

fn bare(signature: u8) -> Value {
    Value::Structure { signature, fields: vec![] }
}

fn run_request(statement: &str, parameters: Vec<(String, Value)>) -> Value {
    Value::Structure { signature: sig::RUN, fields: vec![text(statement), Value::Dictionary(parameters)] }
}

fn connected() -> CypherStream {
    let mut conn = CypherStream::connect(&[0, 0, 0, 1], "neo4j", "x").unwrap();
    let sent = requests(&conn.take_sent());
    assert_eq!(
        sent,
        vec![Value::Structure {
            signature: sig::INIT,
            fields: vec![
                text("rusty-bolt/0.1.0"),
                Value::Dictionary(vec![
                    entry("scheme", text("basic")),
                    entry("principal", text("neo4j")),
                    entry("credentials", text("x")),
                ]),
            ],
        }]
    );
    conn.feed(&success(vec![entry("server", text("Neo4j/3.4.0"))]));
    assert_eq!(conn.fetch_init(), Ok(Ok(())));
    conn
}

#[test]
fn handshake_and_noop_query() {
    let mut conn = connected();
    assert_eq!(conn.protocol_version(), 1);
    assert_eq!(conn.server_version(), "Neo4j/3.4.0");
    assert_eq!(conn.bookmark(), &None);
    let cursor = conn.run("RETURN 1", vec![]).unwrap();
    assert_eq!(requests(&conn.take_sent()), vec![run_request("RETURN 1", vec![]), bare(sig::PULL_ALL)]);
    conn.feed(&success(vec![entry("fields", Value::List(vec![text("1")]))]));
    conn.feed(&record(vec![Value::Integer(1)]));
    conn.feed(&success(vec![entry("type", text("r"))]));
    let result = conn.fetch_header(cursor).unwrap().unwrap();
    assert_eq!(result.keys(), Some(&Value::List(vec![text("1")])));
    assert_eq!(conn.fetch(&result), Ok(Some(Data::Record(vec![Value::Integer(1)]))));
    assert_eq!(conn.fetch(&result), Ok(None));
    assert_eq!(conn.fetch_summary(&result), Ok(Some(BoltSummary::Success(vec![entry("type", text("r"))]))));
    assert_eq!(conn.take_sent(), Vec::<u8>::new());
}

#[test]
fn parameter_round_trip() {
    let mut conn = connected();
    let list = Value::List(vec![
        Value::Integer(-256),
        Value::Integer(-16),
        Value::Integer(0),
        Value::Integer(127),
        Value::Integer(256),
    ]);
    let cursor = conn.run("RETURN $x", vec![entry("x", list.clone())]).unwrap();
    let sent = requests(&conn.take_sent());
    assert_eq!(sent, vec![run_request("RETURN $x", vec![entry("x", list.clone())]), bare(sig::PULL_ALL)]);
    let echoed = match &sent[0] {
        Value::Structure { fields, .. } => match &fields[1] {
            Value::Dictionary(entries) => entries[0].1.clone(),
            _ => panic!("parameters are no dictionary"),
        },
        _ => panic!("request is no structure"),
    };
    conn.feed(&success(vec![entry("fields", Value::List(vec![text("$x")]))]));
    conn.feed(&record(vec![echoed]));
    conn.feed(&success(vec![]));
    let result = conn.fetch_header(cursor).unwrap().unwrap();
    assert_eq!(conn.fetch(&result), Ok(Some(Data::Record(vec![list]))));
    assert_eq!(conn.fetch(&result), Ok(None));
    assert_eq!(conn.fetch_summary(&result), Ok(Some(BoltSummary::Success(vec![]))));
}

#[test]
fn pipelined_dual_query() {
    let mut bolt = BoltStream::connect(&[0, 0, 0, 1]).unwrap();
    bolt.run("RETURN 1", None).unwrap();
    bolt.pull_all().unwrap();
    let head1 = bolt.collect_response();
    let body1 = bolt.collect_response();
    bolt.run("RETURN 2", None).unwrap();
    bolt.pull_all().unwrap();
    let head2 = bolt.collect_response();
    let body2 = bolt.collect_response();
    bolt.send();
    assert_eq!(
        requests(&bolt.take_sent()),
        vec![
            run_request("RETURN 1", vec![]),
            bare(sig::PULL_ALL),
            run_request("RETURN 2", vec![]),
            bare(sig::PULL_ALL),
        ]
    );
    bolt.feed(&success(vec![entry("fields", Value::List(vec![text("1")]))]));
    bolt.feed(&record(vec![Value::Integer(1)]));
    bolt.feed(&success(vec![entry("q", Value::Integer(1))]));
    bolt.feed(&success(vec![entry("fields", Value::List(vec![text("2")]))]));
    bolt.feed(&record(vec![Value::Integer(2)]));
    bolt.feed(&success(vec![entry("q", Value::Integer(2))]));
    assert_eq!(bolt.fetch_summary(body2), Ok(Some(BoltSummary::Success(vec![entry("q", Value::Integer(2))]))));
    assert_eq!(bolt.fetch_record(body1), Ok(Some(Data::Record(vec![Value::Integer(1)]))));
    assert_eq!(bolt.fetch_record(body1), Ok(None));
    assert_eq!(bolt.fetch_summary(body1), Ok(Some(BoltSummary::Success(vec![entry("q", Value::Integer(1))]))));
    assert_eq!(bolt.fetch_record(body2), Ok(Some(Data::Record(vec![Value::Integer(2)]))));
    assert_eq!(bolt.fetch_record(body2), Ok(None));
    assert_eq!(
        bolt.fetch_summary(head1),
        Ok(Some(BoltSummary::Success(vec![entry("fields", Value::List(vec![text("1")]))])))
    );
    assert_eq!(
        bolt.fetch_summary(head2),
        Ok(Some(BoltSummary::Success(vec![entry("fields", Value::List(vec![text("2")]))])))
    );
}

#[test]
fn two_statements_in_one_session_keep_their_rows_apart() {
    let mut conn = connected();
    let first = conn.run("RETURN 1", vec![]).unwrap();
    let second = conn.run("RETURN 2", vec![]).unwrap();
    assert_eq!((first.head(), first.body(), second.head(), second.body()), (1, 2, 3, 4));
    conn.take_sent();
    conn.feed(&success(vec![entry("fields", Value::List(vec![text("1")]))]));
    conn.feed(&record(vec![Value::Integer(1)]));
    conn.feed(&success(vec![entry("q", Value::Integer(1))]));
    conn.feed(&success(vec![entry("fields", Value::List(vec![text("2")]))]));
    conn.feed(&record(vec![Value::Integer(2)]));
    conn.feed(&success(vec![entry("q", Value::Integer(2))]));
    let result2 = conn.fetch_header(second).unwrap().unwrap();
    assert_eq!(result2.keys(), Some(&Value::List(vec![text("2")])));
    let result1 = conn.fetch_header(first).unwrap().unwrap();
    assert_eq!(result1.keys(), Some(&Value::List(vec![text("1")])));
    assert_eq!(
        conn.fetch_summary(&result2),
        Ok(Some(BoltSummary::Success(vec![entry("q", Value::Integer(2))])))
    );
    assert_eq!(conn.fetch(&result2), Ok(Some(Data::Record(vec![Value::Integer(2)]))));
    assert_eq!(conn.fetch(&result2), Ok(None));
    assert_eq!(conn.fetch(&result1), Ok(Some(Data::Record(vec![Value::Integer(1)]))));
    assert_eq!(conn.fetch(&result1), Ok(None));
    assert_eq!(
        conn.fetch_summary(&result1),
        Ok(Some(BoltSummary::Success(vec![entry("q", Value::Integer(1))])))
    );
    assert_eq!(conn.fetch(&result2), Err(BoltError::UnknownResponse));
}

#[test]
fn syntax_error_recovery() {
    let mut conn = connected();
    let cursor = conn.run("RET 1", vec![]).unwrap();
    assert_eq!(requests(&conn.take_sent()), vec![run_request("RET 1", vec![]), bare(sig::PULL_ALL)]);
    conn.feed(&failure("Neo.ClientError.Statement.SyntaxError", "Invalid input"));
    conn.feed(&ignored());
    let refused = conn.fetch_header(cursor).unwrap().unwrap_err();
    let code = text_of(&refused, "code").unwrap();
    assert!(code.starts_with("Neo.ClientError."));
    assert_eq!(text_of(&refused, "message"), Some(String::from("Invalid input")));
    assert_eq!(requests(&conn.take_sent()), vec![bare(sig::ACK_FAILURE)]);
    conn.feed(&success(vec![]));
    let cursor = conn.run("RETURN 1", vec![]).unwrap();
    assert_eq!(requests(&conn.take_sent()), vec![run_request("RETURN 1", vec![]), bare(sig::PULL_ALL)]);
    conn.feed(&success(vec![entry("fields", Value::List(vec![text("1")]))]));
    conn.feed(&record(vec![Value::Integer(1)]));
    conn.feed(&success(vec![]));
    let result = conn.fetch_header(cursor).unwrap().unwrap();
    assert_eq!(conn.fetch(&result), Ok(Some(Data::Record(vec![Value::Integer(1)]))));
    assert_eq!(conn.fetch(&result), Ok(None));
    assert_eq!(conn.fetch_summary(&result), Ok(Some(BoltSummary::Success(vec![]))));
}

#[test]
fn transaction_with_bookmark() {
    let mut conn = connected();
    assert_eq!(conn.begin_transaction(None), Ok(()));
    let cursor = conn.run("CREATE (a) RETURN id(a)", vec![]).unwrap();
    assert_eq!(
        requests(&conn.take_sent()),
        vec![
            run_request("BEGIN", vec![]),
            bare(sig::DISCARD_ALL),
            run_request("CREATE (a) RETURN id(a)", vec![]),
            bare(sig::PULL_ALL),
        ]
    );
    conn.feed(&success(vec![]));
    conn.feed(&success(vec![]));
    conn.feed(&success(vec![entry("fields", Value::List(vec![text("id(a)")]))]));
    conn.feed(&record(vec![Value::Integer(42)]));
    conn.feed(&success(vec![]));
    let result = conn.fetch_header(cursor).unwrap().unwrap();
    assert_eq!(conn.fetch(&result), Ok(Some(Data::Record(vec![Value::Integer(42)]))));
    assert_eq!(conn.drain(&result), Ok(Some(BoltSummary::Success(vec![]))));
    let body = conn.commit_transaction();
    assert_eq!(requests(&conn.take_sent()), vec![run_request("COMMIT", vec![]), bare(sig::DISCARD_ALL)]);
    conn.feed(&success(vec![]));
    conn.feed(&success(vec![entry("bookmark", text("neo4j:bookmark:v1:tx7"))]));
    let summary = conn.fetch_commit(body).unwrap();
    assert_eq!(summary, Some(BoltSummary::Success(vec![entry("bookmark", text("neo4j:bookmark:v1:tx7"))])));
    assert_eq!(conn.bookmark(), &Some(String::from("neo4j:bookmark:v1:tx7")));
    let bookmark = conn.bookmark().clone().unwrap();
    assert_eq!(conn.begin_transaction(Some(&bookmark)), Ok(()));
    conn.send();
    assert_eq!(
        requests(&conn.take_sent()),
        vec![run_request("BEGIN", vec![entry("bookmark", text("neo4j:bookmark:v1:tx7"))]), bare(sig::DISCARD_ALL)]
    );
    conn.feed(&success(vec![]));
    conn.feed(&success(vec![]));
    let body = conn.commit_transaction();
    conn.feed(&success(vec![]));
    conn.feed(&success(vec![entry("bookmark", text("neo4j:bookmark:v1:tx8"))]));
    assert!(conn.fetch_commit(body).unwrap().is_some());
    assert_eq!(conn.bookmark(), &Some(String::from("neo4j:bookmark:v1:tx8")));
}

#[test]
fn large_string_chunking() {
    let mut conn = connected();
    let s = "s".repeat(70000);
    let cursor = conn.run("RETURN $s", vec![entry("s", text(&s))]).unwrap();
    let wire = conn.take_sent();
    let body = run_request("RETURN $s", vec![entry("s", text(&s))]).pack_into().unwrap();
    assert!(body.len() >= 70000 + 5);
    assert_eq!(&wire[..2], &[0xFF, 0xFF]);
    assert_eq!(&wire[2..2 + 65535], &body[..65535]);
    let rest = body.len() - 65535;
    assert!(rest >= 4465);
    assert_eq!(&wire[2 + 65535..4 + 65535], &[(rest >> 8) as u8, rest as u8]);
    assert_eq!(&wire[4 + 65535..4 + body.len()], &body[65535..]);
    assert_eq!(&wire[4 + body.len()..6 + body.len()], &[0, 0]);
    assert_eq!(&wire[6 + body.len()..], &[0, 2, 0xB0, 0x3F, 0, 0]);
    assert_eq!(
        requests(&wire),
        vec![run_request("RETURN $s", vec![entry("s", text(&s))]), bare(sig::PULL_ALL)]
    );
    conn.feed(&success(vec![entry("fields", Value::List(vec![text("$s")]))]));
    conn.feed(&record(vec![text(&s)]));
    conn.feed(&success(vec![]));
    let result = conn.fetch_header(cursor).unwrap().unwrap();
    assert_eq!(conn.fetch(&result), Ok(Some(Data::Record(vec![text(&s)]))));
    assert_eq!(conn.fetch(&result), Ok(None));
}

#[test]
fn connecting_fails_on_a_bad_handshake() {
    assert_eq!(CypherStream::connect(&[0, 0, 0, 0], "u", "p").err(), Some(BoltError::HandshakeRejected));
    assert_eq!(
        CypherStream::connect(&[0], "u", "p").err(),
        Some(BoltError::Handshake(String::from("Error on read")))
    );
}

#[test]
fn the_answer_to_init_decides_whether_the_session_opens() {
    let mut conn = CypherStream::connect(&[0, 0, 0, 1], "neo4j", "wrong").unwrap();
    assert_eq!(conn.fetch_init(), Err(BoltError::Socket(ChunkError::UnexpectedEof)));
    conn.feed(&failure("Neo.ClientError.Security.Unauthorized", "no"));
    assert_eq!(
        conn.fetch_init(),
        Ok(Err(vec![entry("code", text("Neo.ClientError.Security.Unauthorized")), entry("message", text("no"))]))
    );
    assert_eq!(conn.server_version(), "");

    let mut conn = CypherStream::connect(&[0, 0, 0, 1], "neo4j", "x").unwrap();
    conn.feed(&ignored());
    assert_eq!(conn.fetch_init(), Err(BoltError::Protocol(ProtocolError::InitIgnored)));
    assert_eq!(conn.fetch_init(), Err(BoltError::UnknownResponse));

    let mut conn = CypherStream::connect(&[0, 0, 0, 1], "neo4j", "x").unwrap();
    conn.feed(&success(vec![entry("server", Value::Integer(3))]));
    assert_eq!(conn.fetch_init(), Ok(Ok(())));
    assert_eq!(conn.server_version(), "");
}

#[test]
fn a_skipped_commit_hands_out_the_failure_behind_it() {
    let mut conn = connected();
    let cursor = conn.run("CREATE (", vec![]).unwrap();
    let body = conn.commit_transaction();
    conn.take_sent();
    conn.feed(&success(vec![]));
    conn.feed(&failure("Neo.ClientError.Statement.SyntaxError", "bad"));
    conn.feed(&ignored());
    conn.feed(&ignored());
    conn.set_bookmark(String::from("old"));
    let summary = conn.fetch_commit(body).unwrap();
    assert_eq!(
        summary,
        Some(BoltSummary::Failure(vec![
            entry("code", text("Neo.ClientError.Statement.SyntaxError")),
            entry("message", text("bad")),
        ]))
    );
    assert_eq!(conn.bookmark(), &None);
    assert_eq!(requests(&conn.take_sent()), vec![bare(sig::ACK_FAILURE)]);
    let _ = cursor;
    assert_eq!(
        Neo4jTransaction::outcome(summary),
        Err(Neo4jError::CommitFailure(vec![
            entry("code", text("Neo.ClientError.Statement.SyntaxError")),
            entry("message", text("bad")),
        ]))
    );
}

#[test]
fn bookmarks_are_set_and_cleared() {
    let mut conn = connected();
    conn.set_bookmark(String::from("b1"));
    assert_eq!(conn.bookmark(), &Some(String::from("b1")));
    conn.clear_bookmark();
    assert_eq!(conn.bookmark(), &None);
    let body = conn.commit_transaction();
    conn.feed(&success(vec![]));
    conn.feed(&success(vec![entry("bookmark", Value::Integer(1))]));
    conn.set_bookmark(String::from("b2"));
    assert!(conn.fetch_commit(body).unwrap().is_some());
    assert_eq!(conn.bookmark(), &None);
    assert_eq!(CommitResult::new(Some(String::from("b"))).bookmark(), Some("b"));
    assert_eq!(CommitResult::new(None).bookmark(), None);
}

#[test]
fn rollback_and_reset_drop_their_answers() {
    let mut conn = connected();
    let body = conn.rollback_transaction();
    assert_eq!(requests(&conn.take_sent()), vec![run_request("ROLLBACK", vec![]), bare(sig::DISCARD_ALL)]);
    conn.feed(&success(vec![]));
    assert_eq!(conn.fetch_discard(body), Err(BoltError::Socket(ChunkError::UnexpectedEof)));
    conn.feed(&success(vec![]));
    assert_eq!(conn.fetch_discard(body), Ok(()));
    let id = conn.reset();
    assert_eq!(requests(&conn.take_sent()), vec![bare(sig::RESET)]);
    conn.feed(&success(vec![]));
    assert_eq!(conn.fetch_reset(id), Ok(()));
    assert_eq!(conn.fetch_reset(id), Err(BoltError::UnknownResponse));
    assert!(conn.has_room(2));
}

#[test]
fn a_reset_gives_up_what_was_pending() {
    let mut conn = connected();
    let cursor = conn.run("UNWIND range(1, 1000000) AS x RETURN x", vec![]).unwrap();
    let id = conn.reset();
    assert_eq!(
        requests(&conn.take_sent()),
        vec![run_request("UNWIND range(1, 1000000) AS x RETURN x", vec![]), bare(sig::PULL_ALL), bare(sig::RESET)]
    );
    conn.feed(&success(vec![entry("fields", Value::List(vec![text("x")]))]));
    conn.feed(&record(vec![Value::Integer(1)]));
    conn.feed(&record(vec![Value::Integer(2)]));
    assert_eq!(conn.fetch_reset(id), Err(BoltError::Socket(ChunkError::UnexpectedEof)));
    conn.feed(&failure("Neo.TransientError.Transaction.Terminated", "reset"));
    conn.feed(&success(vec![]));
    assert_eq!(conn.fetch_reset(id), Ok(()));
    assert_eq!(conn.fetch_header(cursor).err(), Some(BoltError::UnknownResponse));
    assert_eq!(conn.take_sent(), Vec::<u8>::new());
    let next = conn.run("RETURN 1", vec![]).unwrap();
    assert_eq!((next.head(), next.body()), (id + 1, id + 2));
    conn.feed(&success(vec![]));
    conn.feed(&record(vec![Value::Integer(1)]));
    conn.feed(&success(vec![]));
    let result = conn.fetch_header(next).unwrap().unwrap();
    assert_eq!(conn.fetch(&result), Ok(Some(Data::Record(vec![Value::Integer(1)]))));
}

#[test]
fn a_failed_commit_is_acknowledged() {
    let mut conn = connected();
    let body = conn.commit_transaction();
    conn.take_sent();
    conn.feed(&success(vec![]));
    conn.feed(&failure("Neo.ClientError.Transaction.TransactionNotFound", "none"));
    let summary = conn.fetch_commit(body).unwrap();
    assert!(matches!(summary, Some(BoltSummary::Failure(_))));
    assert_eq!(requests(&conn.take_sent()), vec![bare(sig::ACK_FAILURE)]);
    let body = conn.rollback_transaction();
    conn.take_sent();
    conn.feed(&success(vec![]));
    conn.feed(&success(vec![]));
    conn.feed(&failure("Neo.ClientError.Transaction.TransactionNotFound", "none"));
    assert_eq!(conn.fetch_discard(body), Ok(()));
    assert_eq!(requests(&conn.take_sent()), vec![bare(sig::ACK_FAILURE)]);
}

#[test]
fn unchecked_statements_are_sent_and_forgotten() {
    let mut conn = connected();
    assert_eq!(conn.run_unchecked("CREATE (a)", vec![entry("n", Value::Integer(1))]), Ok(()));
    assert_eq!(
        requests(&conn.take_sent()),
        vec![run_request("CREATE (a)", vec![entry("n", Value::Integer(1))]), bare(sig::DISCARD_ALL)]
    );
    let cursor = conn.run("RETURN 1", vec![]).unwrap();
    conn.feed(&success(vec![]));
    conn.feed(&success(vec![]));
    conn.feed(&success(vec![entry("fields", Value::List(vec![text("1")]))]));
    let result = conn.fetch_header(cursor).unwrap().unwrap();
    assert_eq!(result.keys(), Some(&Value::List(vec![text("1")])));
}

#[test]
fn a_failed_result_is_acknowledged() {
    let mut conn = connected();
    let cursor = conn.run("UNWIND [1, 0] AS x RETURN 1 / x", vec![]).unwrap();
    conn.take_sent();
    conn.feed(&success(vec![entry("fields", Value::List(vec![text("1 / x")]))]));
    conn.feed(&record(vec![Value::Integer(1)]));
    conn.feed(&failure("Neo.ClientError.Statement.ArithmeticError", "/ by zero"));
    let result = conn.fetch_header(cursor).unwrap().unwrap();
    assert_eq!(conn.fetch(&result), Ok(Some(Data::Record(vec![Value::Integer(1)]))));
    assert_eq!(conn.fetch(&result), Ok(None));
    let summary = conn.fetch_summary(&result).unwrap();
    assert!(matches!(summary, Some(BoltSummary::Failure(_))));
    assert_eq!(requests(&conn.take_sent()), vec![bare(sig::ACK_FAILURE)]);
}

#[test]
fn a_result_that_is_dropped_early_is_drained() {
    let mut conn = connected();
    let first = conn.run("UNWIND range(1, 3) AS x RETURN x", vec![]).unwrap();
    conn.take_sent();
    conn.feed(&success(vec![entry("fields", Value::List(vec![text("x")]))]));
    conn.feed(&record(vec![Value::Integer(1)]));
    conn.feed(&record(vec![Value::Integer(2)]));
    let mut result = QueryResult::new(conn.fetch_header(first).unwrap().unwrap());
    assert_eq!(result.keys(), Some(vec![String::from("x")]));
    assert_eq!(result.next(&mut conn), Ok(Some(Data::Record(vec![Value::Integer(1)]))));
    conn.feed(&record(vec![Value::Integer(3)]));
    conn.feed(&success(vec![entry("done", Value::Boolean(true))]));
    assert_eq!(result.close(&mut conn), Ok(Some(BoltSummary::Success(vec![entry("done", Value::Boolean(true))]))));
    let second = conn.run("RETURN 1", vec![]).unwrap();
    assert_eq!(requests(&conn.take_sent()), vec![run_request("RETURN 1", vec![]), bare(sig::PULL_ALL)]);
    conn.feed(&success(vec![entry("fields", Value::List(vec![text("1")]))]));
    conn.feed(&record(vec![Value::Integer(1)]));
    conn.feed(&success(vec![]));
    let result = conn.fetch_header(second).unwrap().unwrap();
    assert_eq!(conn.fetch(&result), Ok(Some(Data::Record(vec![Value::Integer(1)]))));
    assert_eq!(conn.drain(&result), Ok(Some(BoltSummary::Success(vec![]))));
}

#[test]
fn draining_waits_for_the_rest_of_the_result() {
    let mut conn = connected();
    let cursor = conn.run("RETURN 1", vec![]).unwrap();
    conn.feed(&success(vec![]));
    conn.feed(&record(vec![Value::Integer(1)]));
    let result = conn.fetch_header(cursor).unwrap().unwrap();
    assert_eq!(conn.drain(&result), Err(BoltError::Socket(ChunkError::UnexpectedEof)));
    conn.feed(&record(vec![Value::Integer(2)]));
    conn.feed(&success(vec![]));
    assert_eq!(conn.drain(&result), Ok(Some(BoltSummary::Success(vec![]))));
}

#[test]
fn field_names_must_be_a_list_of_strings() {
    let mut conn = connected();
    let headers = vec![
        (vec![entry("fields", Value::List(vec![text("a"), text("b")]))], Some(vec![String::from("a"), String::from("b")])),
        (vec![entry("fields", Value::List(vec![]))], Some(vec![])),
        (vec![entry("fields", Value::List(vec![text("a"), Value::Integer(1)]))], None),
        (vec![entry("fields", text("a"))], None),
        (vec![], None),
    ];
    for (header, expected) in headers {
        let cursor = conn.run("RETURN 1", vec![]).unwrap();
        conn.feed(&success(header));
        conn.feed(&success(vec![]));
        let result = QueryResult::new(conn.fetch_header(cursor).unwrap().unwrap());
        assert_eq!(result.keys(), expected);
        assert_eq!(result.close(&mut conn), Ok(Some(BoltSummary::Success(vec![]))));
    }
}

#[test]
fn a_header_that_was_read_is_gone() {
    let mut conn = connected();
    let cursor = conn.run("RETURN 1", vec![]).unwrap();
    conn.feed(&ignored());
    conn.feed(&ignored());
    assert_eq!(conn.fetch_header(cursor), Ok(Err(vec![])));
    assert_eq!(conn.fetch_header(cursor).err(), Some(BoltError::UnknownResponse));
}

#[test]
fn a_header_is_handed_out_once() {
    let mut conn = connected();
    let first = conn.run("RETURN 1", vec![]).unwrap();
    let second = conn.run("RETURN 2", vec![]).unwrap();
    conn.feed(&success(vec![]));
    conn.feed(&success(vec![]));
    conn.feed(&success(vec![entry("fields", Value::List(vec![text("2")]))]));
    conn.feed(&success(vec![]));
    assert!(conn.fetch_header(second).unwrap().is_ok());
    assert_eq!(conn.fetch_header(second).err(), Some(BoltError::NoSummary));
    assert!(conn.fetch_header(first).unwrap().is_ok());
    let mut init = CypherStream::connect(&[0, 0, 0, 1], "neo4j", "x").unwrap();
    let later = init.run("RETURN 1", vec![]).unwrap();
    init.feed(&success(vec![]));
    init.feed(&success(vec![]));
    assert!(init.fetch_header(later).unwrap().is_ok());
    assert_eq!(init.fetch_init(), Ok(Ok(())));
    assert_eq!(init.fetch_init(), Err(BoltError::UnknownResponse));
}

#[test]
fn a_closed_transaction_is_refused_without_a_word_on_the_wire() {
    let mut conn = connected();
    let mut tx = Neo4jTransaction::new(&mut conn);
    assert!(!tx.closed());
    let body = tx.commit(&mut conn).unwrap();
    assert!(tx.closed());
    assert_eq!(
        requests(&conn.take_sent()),
        vec![
            run_request("BEGIN", vec![]),
            bare(sig::DISCARD_ALL),
            run_request("COMMIT", vec![]),
            bare(sig::DISCARD_ALL),
        ]
    );
    assert_eq!(tx.commit(&mut conn), Err(Neo4jError::ClosedTransaction));
    assert_eq!(tx.rollback(&mut conn), Err(Neo4jError::ClosedTransaction));
    conn.send();
    assert_eq!(conn.take_sent(), Vec::<u8>::new());
    conn.feed(&success(vec![]));
    conn.feed(&success(vec![]));
    conn.feed(&success(vec![]));
    conn.feed(&success(vec![entry("bookmark", text("b"))]));
    let summary = conn.fetch_commit(body).unwrap();
    assert_eq!(Neo4jTransaction::outcome(summary), Ok(vec![entry("bookmark", text("b"))]));
    let mut tx = Neo4jTransaction::new(&mut conn);
    assert!(tx.rollback(&mut conn).is_ok());
    assert_eq!(tx.rollback(&mut conn), Err(Neo4jError::ClosedTransaction));
    assert_eq!(Neo4jTransaction::outcome(None), Err(Neo4jError::CommitNoSummary));
    assert_eq!(Neo4jTransaction::outcome(Some(BoltSummary::Ignored(vec![]))), Err(Neo4jError::CommitNoSummary));
}

#[test]
fn nodes_are_read_out_of_their_structures() {
    let node = Value::Structure {
        signature: 0x4E,
        fields: vec![
            Value::Integer(7),
            Value::List(vec![text("Person"), text("Admin")]),
            Value::Dictionary(vec![entry("name", text("Alice"))]),
        ],
    };
    assert_eq!(
        Node::from_value(node),
        Ok(Node {
            id: 7,
            labs: vec![String::from("Person"), String::from("Admin")],
            props: vec![entry("name", text("Alice"))],
        })
    );
    let with = |signature: u8, fields: Vec<Value>| Node::from_value(Value::Structure { signature, fields });
    let ok = || vec![Value::Integer(0), Value::List(vec![]), Value::Dictionary(vec![])];
    assert!(with(0x4E, ok()).is_ok());
    assert_eq!(Node::from_value(Value::Integer(1)), Err("Is not a node value."));
    assert_eq!(with(0x52, ok()), Err("Structure has incorrect signature"));
    assert_eq!(with(0x4E, vec![Value::Integer(0)]), Err("Node structure has incorrect number of fields"));
    assert_eq!(
        with(0x4E, vec![text("1"), Value::List(vec![]), Value::Dictionary(vec![])]),
        Err("id field is not an integer")
    );
    assert_eq!(
        with(0x4E, vec![Value::Integer(-1), Value::List(vec![]), Value::Dictionary(vec![])]),
        Err("id field is not an integer")
    );
    assert_eq!(
        with(0x4E, vec![Value::Integer(1), Value::Null, Value::Dictionary(vec![])]),
        Err("labels field is not a list")
    );
    assert_eq!(
        with(0x4E, vec![Value::Integer(1), Value::List(vec![Value::Null]), Value::Dictionary(vec![])]),
        Err("label is not a string")
    );
    assert_eq!(
        with(0x4E, vec![Value::Integer(1), Value::List(vec![]), Value::List(vec![])]),
        Err("properties field is not a map")
    );
}

#[test]
fn relationships_are_read_out_of_their_structures() {
    let fields = |i: usize, v: Value| {
        let mut f = vec![
            Value::Integer(1),
            Value::Integer(2),
            Value::Integer(3),
            text("KNOWS"),
            Value::Dictionary(vec![entry("since", Value::Integer(1999))]),
        ];
        f[i] = v;
        f
    };
    let with = |signature: u8, fields: Vec<Value>| Rel::from_value(Value::Structure { signature, fields });
    assert_eq!(
        with(0x52, fields(0, Value::Integer(i64::MAX))),
        Ok(Rel {
            id: i64::MAX as u64,
            src: 2,
            dst: 3,
            label: String::from("KNOWS"),
            props: vec![entry("since", Value::Integer(1999))],
        })
    );
    assert_eq!(Rel::from_value(Value::Null), Err("Value is not an relationship"));
    assert_eq!(with(0x4E, fields(0, Value::Integer(1))), Err("Structure has incorrect signature"));
    assert_eq!(with(0x52, vec![]), Err("Rel structure has incorrect number of fields"));
    assert_eq!(with(0x52, fields(0, Value::Null)), Err("ID field is not an Integer"));
    assert_eq!(with(0x52, fields(1, Value::Integer(-5))), Err("Src field is not an Integer"));
    assert_eq!(with(0x52, fields(2, text("x"))), Err("Dst field is not an Integer"));
    assert_eq!(with(0x52, fields(3, Value::Integer(1))), Err("Label field is not a String"));
    assert_eq!(with(0x52, fields(4, Value::List(vec![]))), Err("Props field is not a Map"));
}
