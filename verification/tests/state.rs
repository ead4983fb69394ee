use rusty_bolt::neo4j::{DirectDriver, GraphDatabase};
use rusty_bolt::state::{ConnectionEvent, ConnectionState};

#[test]
fn a_connection_goes_through_its_states() {
    let s = ConnectionState::Disconnected;
    assert_eq!(s.on(ConnectionEvent::InitSucceeded), ConnectionState::Disconnected);
    let s = s.on(ConnectionEvent::Opened);
    assert_eq!(s, ConnectionState::Connected);
    assert!(!s.serves());
    let s = s.on(ConnectionEvent::InitSucceeded);
    assert_eq!(s, ConnectionState::Ready);
    assert!(s.serves());
    let s = s.on(ConnectionEvent::Requested);
    assert_eq!(s, ConnectionState::Streaming);
    assert!(s.serves());
    let s = s.on(ConnectionEvent::StreamEnded);
    assert_eq!(s, ConnectionState::Ready);
    let s = s.on(ConnectionEvent::RequestFailed);
    assert_eq!(s, ConnectionState::Failed);
    assert!(!s.serves());
    assert_eq!(s.on(ConnectionEvent::Requested), ConnectionState::Failed);
    assert_eq!(s.on(ConnectionEvent::StreamEnded), ConnectionState::Failed);
    assert_eq!(s.on(ConnectionEvent::FailureAcknowledged), ConnectionState::Ready);
    assert_eq!(s.on(ConnectionEvent::ResetSucceeded), ConnectionState::Ready);
    let s = s.on(ConnectionEvent::Broken);
    assert_eq!(s, ConnectionState::Defunct);
}

#[test]
fn every_state_answers_every_event() {
    let states = [
        ConnectionState::Disconnected,
        ConnectionState::Connected,
        ConnectionState::Ready,
        ConnectionState::Streaming,
        ConnectionState::Failed,
        ConnectionState::Defunct,
    ];
    let events = [
        ConnectionEvent::Opened,
        ConnectionEvent::InitSucceeded,
        ConnectionEvent::Requested,
        ConnectionEvent::StreamEnded,
        ConnectionEvent::RequestFailed,
        ConnectionEvent::FailureAcknowledged,
        ConnectionEvent::ResetSucceeded,
        ConnectionEvent::Broken,
    ];
    for state in states {
        for event in events {
            let next = state.on(event);
            if state == ConnectionState::Defunct || event == ConnectionEvent::Broken {
                assert_eq!(next, ConnectionState::Defunct);
            } else if state == ConnectionState::Disconnected {
                let expected =
                    if event == ConnectionEvent::Opened { ConnectionState::Connected } else { state };
                assert_eq!(next, expected);
            } else if event == ConnectionEvent::RequestFailed {
                assert_eq!(next, ConnectionState::Failed);
            } else if event == ConnectionEvent::ResetSucceeded {
                assert_eq!(next, ConnectionState::Ready);
            }
        }
    }
    assert_eq!(ConnectionState::Connected.on(ConnectionEvent::Requested), ConnectionState::Connected);
    assert_eq!(ConnectionState::Ready.on(ConnectionEvent::StreamEnded), ConnectionState::Ready);
    assert_eq!(ConnectionState::Ready.on(ConnectionEvent::Opened), ConnectionState::Ready);
    assert_eq!(ConnectionState::Streaming.on(ConnectionEvent::FailureAcknowledged), ConnectionState::Streaming);
}

#[test]
fn a_driver_keeps_what_it_was_given() {
    let driver = GraphDatabase::driver("[::1]:7687", "neo4j", "password");
    assert_eq!(driver, DirectDriver::new("[::1]:7687", "neo4j", "password"));
    assert_eq!(driver.address(), "[::1]:7687");
    assert_eq!(driver.user(), "neo4j");
    assert_eq!(driver.password(), "password");
    let mut session = driver.session(&[0, 0, 0, 1]).unwrap();
    let wire = session.take_sent();
    assert_eq!(&wire[..4], &[0x00, 0x47, 0xB2, 0x01]);
    assert!(driver.session(&[0, 0, 0, 0]).is_err());
}
