use idlemail::config::{FilesystemRetryAgentConfig, MemoryRetryAgentConfig};
use idlemail::hub::Mail;
use idlemail::record::{decode_entry, encode_entry};
use idlemail::retry::{record_to_remove, FilesystemRetryAgent, FsRetryStep, MemoryRetryAgent, RetryEvent, RetryStep};

fn mail(b: &[u8]) -> Mail {
    Mail::new("s1".to_string(), b.to_vec())
}

#[test]
fn mail_is_not_resent_before_its_delay() {
    let mut a = MemoryRetryAgent::new(&MemoryRetryAgentConfig { delay: 1 });
    a.queue_mail(5000, "d1".to_string(), mail(b"x"));
    assert_eq!(a.queue[0].due, 6000);
    assert!(a.take_due(5999).is_empty());
    assert!(a.take_due(6000).is_empty());
    let out = a.take_due(6001);
    assert_eq!(out.len(), 1);
    assert_eq!(out[0].destination, "d1");
    assert!(a.queue.is_empty());
}

#[test]
fn due_mails_leave_in_queue_order() {
    let mut a = MemoryRetryAgent::new(&MemoryRetryAgentConfig { delay: 2 });
    a.queue_mail(0, "d1".to_string(), mail(b"a"));
    a.queue_mail(100, "d2".to_string(), mail(b"b"));
    a.queue_mail(3000, "d3".to_string(), mail(b"c"));
    let out = a.take_due(2500);
    let names: Vec<&str> = out.iter().map(|e| e.destination.as_str()).collect();
    assert_eq!(names, vec!["d1", "d2"]);
    assert_eq!(a.queue.len(), 1);
}

#[test]
fn disconnect_reports_lost_mails() {
    let mut a = MemoryRetryAgent::new(&MemoryRetryAgentConfig { delay: 10 });
    let s = a.step(0, RetryEvent::QueueMail { destination: "d1".to_string(), mail: mail(b"a") });
    assert!(matches!(s, RetryStep::Resend(ref v) if v.is_empty()));
    assert!(matches!(a.step(1, RetryEvent::Disconnected), RetryStep::Stop { lost: 1 }));
}

#[test]
fn huge_delay_saturates() {
    let mut a = MemoryRetryAgent::new(&MemoryRetryAgentConfig { delay: u64::MAX });
    a.queue_mail(7, "d1".to_string(), mail(b"a"));
    assert_eq!(a.queue[0].due, u64::MAX);
    assert!(a.take_due(u64::MAX).is_empty());
}

#[test]
fn record_round_trips() {
    let bytes = encode_entry(1_700_000_123_456, b"d1", b"s1", b"From: a\r\n\r\nhello");
    assert_eq!(&bytes[0..8], &1_700_000_123_456u64.to_le_bytes());
    assert_eq!(&bytes[8..16], &2u64.to_le_bytes());
    assert_eq!(&bytes[16..18], b"d1");
    assert_eq!(&bytes[18..26], &2u64.to_le_bytes());
    let (due, dst, src, body) = decode_entry(&bytes).unwrap();
    assert_eq!(due, 1_700_000_123_456);
    assert_eq!(dst, b"d1".to_vec());
    assert_eq!(src, b"s1".to_vec());
    assert_eq!(body, b"From: a\r\n\r\nhello".to_vec());
}

#[test]
fn record_with_empty_fields_round_trips() {
    let bytes = encode_entry(0, b"", b"", b"");
    assert_eq!(bytes.len(), 24);
    assert_eq!(decode_entry(&bytes), Some((0, vec![], vec![], vec![])));
}

#[test]
fn short_or_truncated_record_is_refused() {
    assert_eq!(decode_entry(&[1, 2, 3]), None);
    let mut bytes = encode_entry(9, b"dest", b"src", b"");
    bytes.truncate(18);
    assert_eq!(decode_entry(&bytes), None);
    let mut bytes = encode_entry(9, b"dest", b"src", b"");
    bytes.truncate(30);
    assert_eq!(decode_entry(&bytes), None);
}

#[test]
fn persisted_mail_is_resent_to_its_destination_after_restart() {
    // A mail queued for d2 is written to disk; a new agent reads it back.
    let bytes = encode_entry(1000, b"d2", b"s1", b"body");
    let (due, dst, src, body) = decode_entry(&bytes).unwrap();
    let mut a = FilesystemRetryAgent::new(&FilesystemRetryAgentConfig { delay: 1, path: "/tmp".to_string() });
    a.restore(due, String::from_utf8(dst).unwrap(), Mail::new(String::from_utf8(src).unwrap(), body), 0);
    assert!(a.take_due(1000).0.is_empty());
    let (out, records) = a.take_due(1001);
    assert_eq!(out.len(), 1);
    assert_eq!(out[0].destination, "d2");
    assert_eq!(out[0].mail.source, "s1");
    assert_eq!(out[0].mail.body, b"body".to_vec());
    assert_eq!(records, vec![Some(0)]);
}

#[test]
fn restored_entries_are_ordered_by_due_time() {
    let mut a = FilesystemRetryAgent::new(&FilesystemRetryAgentConfig { delay: 1, path: "/tmp".to_string() });
    assert_eq!(a.restore(9000, "late".to_string(), mail(b"l"), 1), 0);
    assert_eq!(a.restore(2000, "early".to_string(), mail(b"e"), 2), 0);
    assert_eq!(a.restore(5000, "middle".to_string(), mail(b"m"), 3), 1);
    let (out, records) = a.take_due(6000);
    let names: Vec<&str> = out.iter().map(|e| e.destination.as_str()).collect();
    assert_eq!(names, vec!["early", "middle"]);
    assert_eq!(records, vec![Some(2), Some(3)]);
    assert_eq!(a.agent.queue.len(), 1);
    assert_eq!(a.records, vec![Some(1)]);
}

#[test]
fn filesystem_step_queues_then_resends() {
    let mut a = FilesystemRetryAgent::new(&FilesystemRetryAgentConfig { delay: 1, path: "/tmp".to_string() });
    let s = a.step(0, RetryEvent::QueueMail { destination: "d1".to_string(), mail: mail(b"x") }, Some(4));
    assert!(matches!(s, FsRetryStep::Resend { ref entries, .. } if entries.is_empty()));
    assert_eq!(a.agent.queue[0].due, 1000);
    assert!(matches!(a.step(1000, RetryEvent::Tick, None), FsRetryStep::Resend { ref entries, .. } if entries.is_empty()));
    match a.step(1001, RetryEvent::Tick, None) {
        FsRetryStep::Resend { entries, records } => {
            assert_eq!(entries.len(), 1);
            assert_eq!(records, vec![Some(4)]);
        }
        FsRetryStep::Stop => panic!("unexpected stop"),
    }
    a.step(1001, RetryEvent::QueueMail { destination: "d1".to_string(), mail: mail(b"y") }, Some(5));
    assert!(matches!(a.step(1002, RetryEvent::Disconnected, None), FsRetryStep::Stop));
    assert_eq!(a.records, vec![Some(5)]);
}

#[test]
fn earlier_due_mail_is_not_held_behind_a_later_one() {
    let mut a = MemoryRetryAgent::new(&MemoryRetryAgentConfig { delay: 1 });
    a.queue_mail(5000, "d1".to_string(), mail(b"a"));
    // The clock stepped back: this entry falls due first.
    assert_eq!(a.queue_mail(100, "d2".to_string(), mail(b"b")), 0);
    let out = a.take_due(1200);
    assert_eq!(out.len(), 1);
    assert_eq!(out[0].destination, "d2");
}

#[test]
fn filesystem_agent_hands_out_records_with_their_entries() {
    let mut a = FilesystemRetryAgent::new(&FilesystemRetryAgentConfig { delay: 1, path: "/tmp".to_string() });
    a.restore(500, "d1".to_string(), mail(b"old"), 7);
    a.queue_mail(100, "d2".to_string(), mail(b"new"), Some(8));
    a.queue_mail(200, "d3".to_string(), mail(b"unsaved"), None);
    assert_eq!(a.agent.queue[0].due, 1000);
    let (due, records) = a.take_due(1150);
    assert_eq!(due.len(), 2);
    assert_eq!(due[0].destination, "d1");
    assert_eq!(due[1].destination, "d2");
    assert_eq!(records, vec![Some(7), Some(8)]);
    assert_eq!(a.records, vec![None]);
    assert_eq!(record_to_remove(true, Some(7)), Some(7));
    assert_eq!(record_to_remove(false, Some(8)), None);
}

#[test]
fn restored_entry_keeps_its_due_time() {
    let mut a = FilesystemRetryAgent::new(&FilesystemRetryAgentConfig { delay: 2, path: "/tmp".to_string() });
    a.restore(1_000_000, "d1".to_string(), mail(b"x"), 0);
    assert_eq!(a.agent.queue[0].due, 1_000_000);
    assert!(a.take_due(1_000_000).0.is_empty());
    assert_eq!(a.take_due(1_000_001).0.len(), 1);
}
