use hed::errors::ApplicationError;
use hed::hostfile::HostFile;
use hed::writer::{WriteAction, WriteEvent};

fn sample() -> HostFile {
    let mut hf = HostFile {
        filename: "/etc/hosts".to_string(),
        entries: None,
    };
    hf.parse(&vec![
        "# local".to_string(),
        "127.0.0.1   localhost loop".to_string(),
        "".to_string(),
    ]);
    hf
}

#[test]
fn the_contents_close_each_line() {
    assert_eq!(sample().contents(), "# local\n127.0.0.1\tlocalhost\tloop\n\n");
    let unread = HostFile {
        filename: "/etc/hosts".to_string(),
        entries: None,
    };
    assert_eq!(unread.contents(), "");
}

#[test]
fn the_backup_lies_beside_the_file() {
    assert_eq!(sample().backup(), "/etc/hosts.bak");
}

#[test]
fn a_file_that_can_be_written_is_backed_up_then_rewritten() {
    let hf = sample();
    assert!(matches!(hf.write(WriteEvent::Asked), WriteAction::Probe));
    assert!(
        matches!(hf.write(WriteEvent::Probed(true)), WriteAction::Backup(ref p) if p == "/etc/hosts.bak")
    );
    assert!(matches!(
        hf.write(WriteEvent::BackedUp(None)),
        WriteAction::Rewrite(ref t) if t == "# local\n127.0.0.1\tlocalhost\tloop\n\n"
    ));
    assert!(matches!(hf.write(WriteEvent::Rewritten), WriteAction::Finish));
}

#[test]
fn a_file_that_cannot_be_written_asks_for_escalation() {
    let hf = sample();
    assert!(matches!(hf.write(WriteEvent::Probed(false)), WriteAction::Escalate));
    assert!(
        matches!(hf.write(WriteEvent::Escalated(None)), WriteAction::Backup(ref p) if p == "/etc/hosts.bak")
    );
    assert!(matches!(
        hf.write(WriteEvent::Escalated(Some("no sudo".to_string()))),
        WriteAction::Fail(ApplicationError::HostFileUnwritable(ref why)) if why == "no sudo"
    ));
}

#[test]
fn a_failed_backup_ends_the_write() {
    let hf = sample();
    assert!(matches!(
        hf.write(WriteEvent::BackedUp(Some("disk full".to_string()))),
        WriteAction::Fail(ApplicationError::BackupFileWriteFailed(ref why)) if why == "disk full"
    ));
}
