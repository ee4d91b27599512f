//! End-to-end protocol scenarios: the three state machines wired together by
//! hand-delivered messages, with three replica servers and majority 2.

use abd::messages::{ABDMessage, ServerMessage};
use abd::reader::{Reader, ReaderEffect, ReaderState, ReaderStatus};
use abd::server::{Server, ServerState};
use abd::writer::{Writer, WriterEffect, WriterState};

const WRITER_ID: u64 = 1;
const READER_ID: u64 = 2;
const READER_B_ID: u64 = 3;

fn spawn_servers(n: usize) -> Vec<(u64, ServerState)> {
    let srv = Server;
    (0..n).map(|i| (10 + i as u64, srv.pre_start())).collect()
}

/// Delivers one server message to every listed server and collects replies.
fn deliver_to_servers(
    servers: &mut [(u64, ServerState)],
    msg: &ServerMessage,
) -> Vec<ABDMessage> {
    let srv = Server;
    let mut replies = Vec::new();
    for (id, state) in servers.iter_mut() {
        if let Some(reply) = srv.handle(*id, msg.clone(), state) {
            replies.push(reply);
        }
    }
    replies
}

fn expect_write_broadcast(e: &WriterEffect) -> (u64, String, u64) {
    match e {
        WriterEffect::Broadcast(t, v, c) => (*t, v.clone(), *c),
        _ => panic!("expected a write broadcast"),
    }
}

fn expect_read_broadcast(e: &ReaderEffect) -> u64 {
    match e {
        ReaderEffect::BroadcastRead(c) => *c,
        _ => panic!("expected a Phase-1 broadcast"),
    }
}

fn expect_write_back(e: &ReaderEffect) -> (u64, String, u64) {
    match e {
        ReaderEffect::BroadcastWrite(t, v, c) => (*t, v.clone(), *c),
        _ => panic!("expected a Phase-2 write-back broadcast"),
    }
}

fn expect_complete(e: &ReaderEffect) -> String {
    match e {
        ReaderEffect::Complete(v) => v.clone(),
        _ => panic!("expected a completion"),
    }
}

/// Runs one full write of `value` against the listed servers, asserting that
/// it completes, and returns the tag it completed at.
fn run_write(
    writer: &Writer,
    w: &mut WriterState,
    servers: &mut [(u64, ServerState)],
    value: &str,
) -> u64 {
    let effects = writer.handle(ABDMessage::Write(value.to_string()), w);
    assert_eq!(effects.len(), 1);
    let (tag, v, wc) = expect_write_broadcast(&effects[0]);
    assert_eq!(v, value);
    let msg = ServerMessage::Write(WRITER_ID, tag, v, wc);
    let replies = deliver_to_servers(servers, &msg);
    let mut completed = None;
    for reply in replies {
        let effs = writer.handle(reply, w);
        for e in effs {
            match e {
                WriterEffect::Complete(t) => completed = Some(t),
                _ => panic!("no broadcast expected while acks arrive"),
            }
        }
    }
    completed.expect("write should complete with a majority of servers")
}

/// Runs one full read as `reader_id` against the listed servers, asserting
/// that it completes, and returns the value it returned.
fn run_read(
    reader: &Reader,
    r: &mut ReaderState,
    servers: &mut [(u64, ServerState)],
    reader_id: u64,
) -> String {
    let effects = reader.handle(ABDMessage::Read, r);
    assert_eq!(effects.len(), 1);
    let rc = expect_read_broadcast(&effects[0]);
    let replies = deliver_to_servers(servers, &ServerMessage::Read(reader_id, rc));
    let mut write_back = None;
    for reply in replies {
        let effs = reader.handle(reply, r);
        for e in effs {
            write_back = Some(expect_write_back(&e));
        }
    }
    let (tag, v, rc2) = write_back.expect("Phase 1 should reach a majority");
    let replies = deliver_to_servers(servers, &ServerMessage::Write(reader_id, tag, v, rc2));
    let mut done = None;
    for reply in replies {
        let effs = reader.handle(reply, r);
        for e in effs {
            done = Some(expect_complete(&e));
        }
    }
    done.expect("Phase 2 should reach a majority")
}

#[test]
fn s1_happy_path() {
    let writer = Writer;
    let reader = Reader;
    let mut servers = spawn_servers(3);
    let mut w = writer.pre_start(3);
    let mut r = reader.pre_start(3);
    assert_eq!(w.majority, 2);
    assert_eq!(r.majority, 2);

    let tag = run_write(&writer, &mut w, &mut servers, "v1");
    assert_eq!(tag, 1);
    assert!(!w.writing);
    for (_, s) in servers.iter() {
        assert_eq!(s.tag, 1);
        assert_eq!(s.value, "v1");
    }

    let value = run_read(&reader, &mut r, &mut servers, READER_ID);
    assert_eq!(value, "v1");
    assert_eq!(r.status, ReaderStatus::Idle);
}

#[test]
fn s2_single_server_failure() {
    let writer = Writer;
    let reader = Reader;
    // Abort s0: only s1 and s2 ever answer.
    let mut servers = spawn_servers(3);
    let mut live = servers.split_off(1);
    let mut w = writer.pre_start(3);
    let mut r = reader.pre_start(3);

    let tag = run_write(&writer, &mut w, &mut live, "first");
    assert_eq!(tag, 1);
    let value = run_read(&reader, &mut r, &mut live, READER_ID);
    assert_eq!(value, "first");
}

#[test]
fn s3_read_of_initial_state() {
    let reader = Reader;
    let mut servers = spawn_servers(3);
    let mut r = reader.pre_start(3);

    let effects = reader.handle(ABDMessage::Read, &mut r);
    let rc = expect_read_broadcast(&effects[0]);
    assert_eq!(rc, 1);
    let replies = deliver_to_servers(&mut servers, &ServerMessage::Read(READER_ID, rc));
    assert_eq!(replies.len(), 3);
    match &replies[0] {
        ABDMessage::ReadAck(_, tag, v, c) => {
            assert_eq!(*tag, 0);
            assert_eq!(v, "");
            assert_eq!(*c, 1);
        },
        _ => panic!("expected a Phase-1 answer"),
    }
    let value = run_read_from_phase1(&reader, &mut r, &mut servers, replies);
    assert_eq!(value, "");
}

fn run_read_from_phase1(
    reader: &Reader,
    r: &mut ReaderState,
    servers: &mut [(u64, ServerState)],
    replies: Vec<ABDMessage>,
) -> String {
    let mut write_back = None;
    for reply in replies {
        for e in reader.handle(reply, r) {
            write_back = Some(expect_write_back(&e));
        }
    }
    let (tag, v, rc) = write_back.expect("Phase 1 should reach a majority");
    let replies = deliver_to_servers(servers, &ServerMessage::Write(READER_ID, tag, v, rc));
    let mut done = None;
    for reply in replies {
        for e in reader.handle(reply, r) {
            done = Some(expect_complete(&e));
        }
    }
    done.expect("Phase 2 should reach a majority")
}

#[test]
fn s4_two_reads_queued_at_one_reader() {
    let writer = Writer;
    let reader = Reader;
    let mut servers = spawn_servers(3);
    let mut w = writer.pre_start(3);
    let mut r = reader.pre_start(3);
    run_write(&writer, &mut w, &mut servers, "latest");

    // First read starts; second arrives mid-operation and is deferred.
    let effects = reader.handle(ABDMessage::Read, &mut r);
    let rc = expect_read_broadcast(&effects[0]);
    let effects = reader.handle(ABDMessage::Read, &mut r);
    assert!(effects.is_empty());
    assert_eq!(r.backlog.len(), 1);

    // Drive the first read to completion; its completing turn must also
    // start the deferred read, in that order.
    let replies = deliver_to_servers(&mut servers, &ServerMessage::Read(READER_ID, rc));
    let mut write_back = None;
    for reply in replies {
        for e in reader.handle(reply, &mut r) {
            write_back = Some(expect_write_back(&e));
        }
    }
    let (tag, v, rc2) = write_back.expect("Phase 1 should reach a majority");
    let replies = deliver_to_servers(&mut servers, &ServerMessage::Write(READER_ID, tag, v, rc2));
    let mut completed = None;
    let mut second_rc = None;
    for reply in replies {
        let effs = reader.handle(reply, &mut r);
        if !effs.is_empty() {
            assert_eq!(effs.len(), 2);
            completed = Some(expect_complete(&effs[0]));
            second_rc = Some(expect_read_broadcast(&effs[1]));
        }
    }
    assert_eq!(completed.as_deref(), Some("latest"));
    assert_eq!(r.backlog.len(), 0);

    // The second read completes with the same (not older) value.
    let replies =
        deliver_to_servers(&mut servers, &ServerMessage::Read(READER_ID, second_rc.unwrap()));
    let value = run_read_from_phase1(&reader, &mut r, &mut servers, replies);
    assert_eq!(value, "latest");
}

#[test]
fn s5_two_readers_racing_a_write() {
    let reader = Reader;
    let mut ra = reader.pre_start(3);
    let mut rb = reader.pre_start(3);

    // Reader A's Phase-1 majority still reports tag 1; s2's newer answer
    // never arrives.
    let effects = reader.handle(ABDMessage::Read, &mut ra);
    let rc = expect_read_broadcast(&effects[0]);
    reader.handle(ABDMessage::ReadAck(10, 1, "v1".to_string(), rc), &mut ra);
    let effs = reader.handle(ABDMessage::ReadAck(11, 1, "v1".to_string(), rc), &mut ra);
    let (tag_a, v_a, _) = expect_write_back(&effs[0]);
    assert_eq!(tag_a, 1);
    assert_eq!(v_a, "v1");
    reader.handle(ABDMessage::WriteAck(10, rc + 1), &mut ra);
    let effs = reader.handle(ABDMessage::WriteAck(11, rc + 1), &mut ra);
    assert_eq!(expect_complete(&effs[0]), "v1");

    // Reader B observes the write at tag 2 on one server of its majority.
    let effects = reader.handle(ABDMessage::Read, &mut rb);
    let rc = expect_read_broadcast(&effects[0]);
    reader.handle(ABDMessage::ReadAck(11, 2, "v2".to_string(), rc), &mut rb);
    let effs = reader.handle(ABDMessage::ReadAck(12, 1, "v1".to_string(), rc), &mut rb);
    let (tag_b, v_b, rc2) = expect_write_back(&effs[0]);
    assert_eq!(tag_b, 2);
    assert_eq!(v_b, "v2");
    reader.handle(ABDMessage::WriteAck(11, rc2), &mut rb);
    let effs = reader.handle(ABDMessage::WriteAck(12, rc2), &mut rb);
    assert_eq!(expect_complete(&effs[0]), "v2");
}

#[test]
fn s6_write_back_lifts_straggler() {
    let writer = Writer;
    let reader = Reader;
    let mut servers = spawn_servers(3);
    let mut w = writer.pre_start(3);
    let mut r = reader.pre_start(3);

    // s0 misses the writer's broadcast for tag 1.
    let effects = writer.handle(ABDMessage::Write("v1".to_string()), &mut w);
    let (tag, v, wc) = expect_write_broadcast(&effects[0]);
    let msg = ServerMessage::Write(WRITER_ID, tag, v, wc);
    let replies = deliver_to_servers(&mut servers[1..], &msg);
    for reply in replies {
        writer.handle(reply, &mut w);
    }
    assert!(!w.writing);
    assert_eq!(servers[0].1.tag, 0);

    // The read's Phase-2 write-back lifts s0 to tag 1.
    let value = run_read(&reader, &mut r, &mut servers, READER_B_ID);
    assert_eq!(value, "v1");
    for (_, s) in servers.iter() {
        assert_eq!(s.tag, 1);
        assert_eq!(s.value, "v1");
    }
}
