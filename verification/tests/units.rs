//! Unit tests for the single transitions: quorum arithmetic, the server's
//! counter and tag rules, and the Writer's and Reader's vote counting,
//! message dropping and backlog discipline.

use abd::messages::{ABDMessage, ServerMessage};
use abd::quorum::majority_of;
use abd::reader::{Reader, ReaderEffect, ReaderStatus};
use abd::server::Server;
use abd::writer::{Writer, WriterEffect};

#[test]
fn majority_thresholds() {
    assert_eq!(majority_of(1), 1);
    assert_eq!(majority_of(2), 2);
    assert_eq!(majority_of(3), 2);
    assert_eq!(majority_of(4), 3);
    assert_eq!(majority_of(5), 3);
}

#[test]
fn server_rejects_stale_write_counter() {
    let srv = Server;
    let mut s = srv.pre_start();
    let r = srv.handle(7, ServerMessage::Write(1, 1, "a".to_string(), 1), &mut s);
    assert!(matches!(r, Some(ABDMessage::WriteAck(7, 1))));
    assert_eq!(s.tag, 1);
    assert_eq!(s.value, "a");

    // Replay at the same counter: dropped silently, nothing changes.
    let r = srv.handle(7, ServerMessage::Write(1, 9, "b".to_string(), 1), &mut s);
    assert!(r.is_none());
    assert_eq!(s.tag, 1);
    assert_eq!(s.value, "a");

    // An older counter: dropped too.
    let r = srv.handle(7, ServerMessage::Write(1, 9, "b".to_string(), 0), &mut s);
    assert!(r.is_none());
    assert_eq!(s.tag, 1);
}

#[test]
fn server_tag_monotonic_acks_lower_tag() {
    let srv = Server;
    let mut s = srv.pre_start();
    srv.handle(7, ServerMessage::Write(1, 5, "newer".to_string(), 1), &mut s);
    assert_eq!(s.tag, 5);

    // A fresh counter with a lower tag is acknowledged but not adopted.
    let r = srv.handle(7, ServerMessage::Write(1, 3, "older".to_string(), 2), &mut s);
    assert!(matches!(r, Some(ABDMessage::WriteAck(7, 2))));
    assert_eq!(s.tag, 5);
    assert_eq!(s.value, "newer");

    // An equal tag loses too: strictly greater wins.
    let r = srv.handle(7, ServerMessage::Write(1, 5, "tied".to_string(), 3), &mut s);
    assert!(matches!(r, Some(ABDMessage::WriteAck(7, 3))));
    assert_eq!(s.value, "newer");
}

#[test]
fn server_read_counter_rule_is_idempotent() {
    let srv = Server;
    let mut s = srv.pre_start();
    let r = srv.handle(7, ServerMessage::Read(2, 4), &mut s);
    assert!(matches!(r, Some(ABDMessage::ReadAck(7, 0, _, 4))));

    // A retransmission at the same counter is still answered.
    let r = srv.handle(7, ServerMessage::Read(2, 4), &mut s);
    assert!(matches!(r, Some(ABDMessage::ReadAck(7, 0, _, 4))));

    // A strictly older read is dropped.
    let r = srv.handle(7, ServerMessage::Read(2, 3), &mut s);
    assert!(r.is_none());
}

#[test]
fn server_counters_are_per_sender() {
    let srv = Server;
    let mut s = srv.pre_start();
    srv.handle(7, ServerMessage::Write(1, 1, "a".to_string(), 5), &mut s);
    // A different sender at a lower counter is fresh for that sender.
    let r = srv.handle(7, ServerMessage::Write(2, 2, "b".to_string(), 1), &mut s);
    assert!(matches!(r, Some(ABDMessage::WriteAck(7, 1))));
    assert_eq!(s.tag, 2);
    assert_eq!(s.value, "b");
}

#[test]
fn writer_duplicate_acks_do_not_complete() {
    let writer = Writer;
    let mut w = writer.pre_start(3);
    writer.handle(ABDMessage::Write("x".to_string()), &mut w);
    assert!(w.writing);
    assert_eq!(w.write_counter, 1);

    // The same server acknowledging twice counts once.
    let effs = writer.handle(ABDMessage::WriteAck(10, 1), &mut w);
    assert!(effs.is_empty());
    let effs = writer.handle(ABDMessage::WriteAck(10, 1), &mut w);
    assert!(effs.is_empty());
    assert!(w.writing);
    assert_eq!(w.server_acks.len(), 1);

    // A second distinct server completes the majority.
    let effs = writer.handle(ABDMessage::WriteAck(11, 1), &mut w);
    assert_eq!(effs.len(), 1);
    assert!(matches!(effs[0], WriterEffect::Complete(1)));
    assert!(!w.writing);
}

#[test]
fn writer_ignores_stale_and_foreign_messages() {
    let writer = Writer;
    let mut w = writer.pre_start(3);

    // An ack while idle is dropped.
    let effs = writer.handle(ABDMessage::WriteAck(10, 1), &mut w);
    assert!(effs.is_empty());

    writer.handle(ABDMessage::Write("x".to_string()), &mut w);
    // An ack at a stale counter does not count.
    let effs = writer.handle(ABDMessage::WriteAck(10, 0), &mut w);
    assert!(effs.is_empty());
    assert_eq!(w.server_acks.len(), 0);

    // Read traffic means nothing to the writer and is not deferred.
    let effs = writer.handle(ABDMessage::Read, &mut w);
    assert!(effs.is_empty());
    let effs = writer.handle(ABDMessage::ReadAck(10, 1, "y".to_string(), 1), &mut w);
    assert!(effs.is_empty());
    assert_eq!(w.backlog.len(), 0);
}

#[test]
fn writer_backlog_is_fifo() {
    let writer = Writer;
    let mut w = writer.pre_start(3);
    let effs = writer.handle(ABDMessage::Write("one".to_string()), &mut w);
    assert_eq!(effs.len(), 1);

    // Two more writes arrive mid-operation and wait in order.
    assert!(writer.handle(ABDMessage::Write("two".to_string()), &mut w).is_empty());
    assert!(writer.handle(ABDMessage::Write("three".to_string()), &mut w).is_empty());
    assert_eq!(w.backlog.len(), 2);

    // Completing the first write starts exactly the oldest deferred one.
    writer.handle(ABDMessage::WriteAck(10, 1), &mut w);
    let effs = writer.handle(ABDMessage::WriteAck(11, 1), &mut w);
    assert_eq!(effs.len(), 2);
    assert!(matches!(effs[0], WriterEffect::Complete(1)));
    match &effs[1] {
        WriterEffect::Broadcast(tag, v, wc) => {
            assert_eq!(*tag, 2);
            assert_eq!(v, "two");
            assert_eq!(*wc, 2);
        },
        _ => panic!("expected the second write to start"),
    }
    assert_eq!(w.backlog.len(), 1);

    // And completing that one starts the youngest.
    writer.handle(ABDMessage::WriteAck(10, 2), &mut w);
    let effs = writer.handle(ABDMessage::WriteAck(12, 2), &mut w);
    assert_eq!(effs.len(), 2);
    match &effs[1] {
        WriterEffect::Broadcast(tag, v, wc) => {
            assert_eq!(*tag, 3);
            assert_eq!(v, "three");
            assert_eq!(*wc, 3);
        },
        _ => panic!("expected the third write to start"),
    }
    assert_eq!(w.backlog.len(), 0);
}

#[test]
fn reader_drops_mismatched_replies() {
    let reader = Reader;
    let mut r = reader.pre_start(3);
    reader.handle(ABDMessage::Read, &mut r);
    assert_eq!(r.status, ReaderStatus::Phase1);

    // A Phase-2 ack during Phase 1 is dropped, as is a stale Phase-1 answer.
    assert!(reader.handle(ABDMessage::WriteAck(10, 1), &mut r).is_empty());
    assert!(reader.handle(ABDMessage::ReadAck(10, 1, "v".to_string(), 9), &mut r).is_empty());
    assert_eq!(r.server_acks.len(), 0);

    // A client write request means nothing to a reader: dropped, not queued.
    assert!(reader.handle(ABDMessage::Write("v".to_string()), &mut r).is_empty());
    assert_eq!(r.backlog.len(), 0);

    // Entering Phase 2, a late Phase-1 answer is dropped.
    reader.handle(ABDMessage::ReadAck(10, 1, "v".to_string(), 1), &mut r);
    let effs = reader.handle(ABDMessage::ReadAck(11, 1, "v".to_string(), 1), &mut r);
    assert_eq!(effs.len(), 1);
    assert_eq!(r.status, ReaderStatus::Phase2);
    assert!(reader.handle(ABDMessage::ReadAck(12, 1, "v".to_string(), 1), &mut r).is_empty());
    assert_eq!(r.server_acks.len(), 0);
}

#[test]
fn reader_keeps_first_value_at_equal_tag() {
    let reader = Reader;
    let mut r = reader.pre_start(3);
    reader.handle(ABDMessage::Read, &mut r);

    // Both answers carry tag 1; the first one seen wins the tie.
    reader.handle(ABDMessage::ReadAck(10, 1, "a".to_string(), 1), &mut r);
    let effs = reader.handle(ABDMessage::ReadAck(11, 1, "b".to_string(), 1), &mut r);
    match &effs[0] {
        ReaderEffect::BroadcastWrite(tag, v, rc) => {
            assert_eq!(*tag, 1);
            assert_eq!(v, "a");
            assert_eq!(*rc, 2);
        },
        _ => panic!("expected the Phase-2 write-back"),
    }
}

#[test]
fn reader_duplicate_votes_do_not_advance_phase() {
    let reader = Reader;
    let mut r = reader.pre_start(3);
    reader.handle(ABDMessage::Read, &mut r);
    reader.handle(ABDMessage::ReadAck(10, 0, String::new(), 1), &mut r);
    let effs = reader.handle(ABDMessage::ReadAck(10, 0, String::new(), 1), &mut r);
    assert!(effs.is_empty());
    assert_eq!(r.status, ReaderStatus::Phase1);
    assert_eq!(r.server_acks.len(), 1);
}

#[test]
fn reader_resets_observation_on_new_read() {
    let reader = Reader;
    let mut r = reader.pre_start(3);

    // First read observes tag 4.
    reader.handle(ABDMessage::Read, &mut r);
    reader.handle(ABDMessage::ReadAck(10, 4, "old".to_string(), 1), &mut r);
    reader.handle(ABDMessage::ReadAck(11, 4, "old".to_string(), 1), &mut r);
    reader.handle(ABDMessage::WriteAck(10, 2), &mut r);
    reader.handle(ABDMessage::WriteAck(11, 2), &mut r);
    assert_eq!(r.status, ReaderStatus::Idle);

    // A fresh read starts from a clean observation, not from tag 4.
    reader.handle(ABDMessage::Read, &mut r);
    assert_eq!(r.max_tag, 0);
    assert_eq!(r.value, "");
}
