use idlemail::config::AuthMethod;
use idlemail::imap::{
    has_prefix, idle_wait_secs, login_credentials, next_backoff, mailbox_path, next_run_step, select_mailboxes, seqs_to_delete,
    sequence_set, RunOutcome, RunStep, SessionError,
};

#[test]
fn run_policy_gives_up_on_third_failure() {
    assert_eq!(next_run_step(0, RunOutcome::Success), RunStep::Return);
    assert_eq!(next_run_step(0, RunOutcome::Failed), RunStep::Retry { failures: 1 });
    assert_eq!(next_run_step(1, RunOutcome::Failed), RunStep::Retry { failures: 2 });
    assert_eq!(next_run_step(2, RunOutcome::Failed), RunStep::GiveUp);
    assert_eq!(next_run_step(2, RunOutcome::ConnectionLost), RunStep::Reconnect);
}

#[test]
fn plain_auth_fails_fast() {
    let plain = AuthMethod::Plain { user: "u".to_string(), password: "p".to_string() };
    assert_eq!(login_credentials(&plain), Err(SessionError::PlainAuthUnsupported));
    let login = AuthMethod::Login { user: "u".to_string(), password: "p".to_string() };
    assert_eq!(login_credentials(&login), Ok(("u".to_string(), "p".to_string())));
}

#[test]
fn mailbox_path_uses_slashes() {
    assert_eq!(mailbox_path("INBOX.Work.2024", Some(".")), "INBOX/Work/2024");
    assert_eq!(mailbox_path("INBOX.Work", None), "INBOX.Work");
    assert_eq!(mailbox_path("Archive", Some(".")), "Archive");
    assert_eq!(mailbox_path("A/B", Some("/")), "A/B");
}

#[test]
fn prefix_filter_selects_mailboxes() {
    assert!(has_prefix("INBOX/Work", "INBOX"));
    assert!(!has_prefix("INBOX", "INBOX/Work"));
    let paths = vec!["INBOX".to_string(), "Archive".to_string(), "INBOX/Work".to_string()];
    assert_eq!(select_mailboxes(&paths, Some("INBOX")), vec![0, 2]);
    assert_eq!(select_mailboxes(&paths, None), vec![0, 1, 2]);
    assert_eq!(select_mailboxes(&paths, Some("Nope")), Vec::<usize>::new());
}

#[test]
fn empty_poll_cycle_deletes_nothing() {
    assert!(seqs_to_delete(false, &vec![]).is_empty());
    assert!(seqs_to_delete(true, &vec![]).is_empty());
}

#[test]
fn only_emitted_mails_are_deleted() {
    let outcomes = vec![(1, true), (2, false), (5, true)];
    assert_eq!(seqs_to_delete(false, &outcomes), vec![1, 5]);
    assert!(seqs_to_delete(true, &outcomes).is_empty());
}

#[test]
fn sequence_set_joins_numbers() {
    assert_eq!(sequence_set(&vec![1, 22, 333]), b"1,22,333".to_vec());
    assert_eq!(sequence_set(&vec![0]), b"0".to_vec());
    assert_eq!(sequence_set(&vec![]), Vec::<u8>::new());
    assert_eq!(sequence_set(&vec![4294967295]), b"4294967295".to_vec());
}

#[test]
fn idle_renewal_stays_under_29_minutes() {
    assert_eq!(idle_wait_secs(0), 1);
    assert_eq!(idle_wait_secs(300), 300);
    assert_eq!(idle_wait_secs(3600), 1740);
}

#[test]
fn reconnection_backoff_doubles_up_to_the_renewal_wait() {
    assert_eq!(next_backoff(0, 60), 1);
    assert_eq!(next_backoff(1, 60), 2);
    assert_eq!(next_backoff(16, 60), 32);
    assert_eq!(next_backoff(32, 60), 60);
    assert_eq!(next_backoff(u64::MAX, 60), 60);
}
