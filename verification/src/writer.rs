//! Writing a hosts file back without losing it: what the file is rewritten
//! with, where its backup goes, and which step follows which. The steps
//! themselves (asking whether the file can be written, gaining the right to,
//! copying, rewriting) are the caller's to perform.

use crate::errors::{ApplicationError, Failure};
use crate::hostentry::Record;
use crate::hostfile::{records, HostFile, Store};
use vstd::prelude::*;
use vstd::string::*;

verus! {

/// What has just happened while a file is written back.
#[derive(Debug)]
pub enum WriteEvent {
    /// The write has been asked for.
    Asked,
    /// It is known whether this process can write the file.
    Probed(bool),
    /// The attempt to gain the right to write has ended; holds the reason
    /// where it failed.
    Escalated(Option<String>),
    /// The copy to the backup has ended; holds the reason where it failed.
    BackedUp(Option<String>),
    /// The file has been rewritten.
    Rewritten,
}

/// What is to be done next while a file is written back.
#[derive(Debug)]
pub enum WriteAction {
    /// Find out whether this process can write the file.
    Probe,
    /// Gain the right to write the file.
    Escalate,
    /// Copy the file as it is to the path held.
    Backup(String),
    /// Truncate the file and write the text held.
    Rewrite(String),
    /// Nothing: the file has been written.
    Finish,
    /// Nothing: the write has failed, and the file is as it was.
    Fail(ApplicationError),
}

/// A [`WriteAction`] with each text as a sequence of characters.
pub enum Step {
    Probe,
    Escalate,
    Backup(Seq<char>),
    Rewrite(Seq<char>),
    Finish,
    Fail(Failure),
}

impl View for WriteAction {
    type V = Step;

    open spec fn view(&self) -> Step {
        match self {
            WriteAction::Probe => Step::Probe,
            WriteAction::Escalate => Step::Escalate,
            WriteAction::Backup(p) => Step::Backup(p@),
            WriteAction::Rewrite(t) => Step::Rewrite(t@),
            WriteAction::Finish => Step::Finish,
            WriteAction::Fail(e) => Step::Fail(e@),
        }
    }
}

/// The lines of the records, each closed by a line feed.
pub open spec fn lines_text(rs: Seq<Record>) -> Seq<char>
    decreases rs.len(),
{
    if rs.len() == 0 {
        Seq::empty()
    } else {
        lines_text(rs.drop_last()) + rs.last().render() + "\n"@
    }
}

impl Store {
    /// Where the backup of the file goes: its own path with `.bak` behind.
    pub open spec fn backup_path(self) -> Seq<char> {
        self.filename + ".bak"@
    }

    /// The step that follows `event`. The file is probed first; a file that
    /// cannot be written asks for escalation, and a failed escalation ends
    /// the write. Then comes the backup, and only after a backup that
    /// succeeded the rewrite.
    pub open spec fn write_step(self, event: WriteEvent) -> Step {
        match event {
            WriteEvent::Asked => Step::Probe,
            WriteEvent::Probed(true) => Step::Backup(self.backup_path()),
            WriteEvent::Probed(false) => Step::Escalate,
            WriteEvent::Escalated(None) => Step::Backup(self.backup_path()),
            WriteEvent::Escalated(Some(why)) => Step::Fail(Failure::HostFileUnwritable(why@)),
            WriteEvent::BackedUp(None) => Step::Rewrite(lines_text(self.list())),
            WriteEvent::BackedUp(Some(why)) => Step::Fail(Failure::BackupFileWriteFailed(why@)),
            WriteEvent::Rewritten => Step::Finish,
        }
    }
}

/// The file is rewritten only after its backup has succeeded, the backup is
/// made only of a file that can be written or after escalation has
/// succeeded, and a failure of either ends the write with its own error.
pub proof fn law_rewrite_follows_backup(s: Store, event: WriteEvent)
    ensures
        s.write_step(event) is Rewrite <==> event == WriteEvent::BackedUp(None),
        s.write_step(event) is Backup <==> event == WriteEvent::Probed(true) || event
            == WriteEvent::Escalated(None),
        s.write_step(event) is Fail <==> (event is Escalated && event->Escalated_0 is Some) || (
        event is BackedUp && event->BackedUp_0 is Some),
        event is Escalated && event->Escalated_0 is Some ==> s.write_step(event)
            == Step::Fail(Failure::HostFileUnwritable(event->Escalated_0->0@)),
        event is BackedUp && event->BackedUp_0 is Some ==> s.write_step(event) == Step::Fail(
            Failure::BackupFileWriteFailed(event->BackedUp_0->0@),
        ),
{
}

impl HostFile {
    /// The text of the file as its entries give it: each line closed by a
    /// line feed.
    pub fn contents(&self) -> (r: String)
        ensures
            r@ == lines_text(self@.list()),
    {
        let mut out = String::new();
        match &self.entries {
            Some(v) => {
                let mut i: usize = 0;
                assert(records(v@).take(0) =~= Seq::<Record>::empty());
                while i < v.len()
                    invariant
                        i <= v.len(),
                        out@ == lines_text(records(v@).take(i as int)),
                    decreases v.len() - i,
                {
                    proof {
                        let next = records(v@).take(i + 1);
                        assert(next.drop_last() =~= records(v@).take(i as int));
                        assert(next.last() == v@[i as int]@);
                    }
                    out.append(v[i].to_string().as_str());
                    out.append("\n");
                    i = i + 1;
                }
                assert(records(v@).take(v.len() as int) =~= records(v@));
            },
            None => {},
        }
        out
    }

    /// The path of the backup copy: the path of the file with `.bak` behind.
    pub fn backup(&self) -> (r: String)
        ensures
            r@ == self@.backup_path(),
    {
        let mut out = self.filename.clone();
        out.append(".bak");
        out
    }

    /// The step that follows `event` while the file is written back.
    pub fn write(&self, event: WriteEvent) -> (r: WriteAction)
        ensures
            r@ == self@.write_step(event),
    {
        match event {
            WriteEvent::Asked => WriteAction::Probe,
            WriteEvent::Probed(true) => WriteAction::Backup(self.backup()),
            WriteEvent::Probed(false) => WriteAction::Escalate,
            WriteEvent::Escalated(None) => WriteAction::Backup(self.backup()),
            WriteEvent::Escalated(Some(why)) => WriteAction::Fail(
                ApplicationError::HostFileUnwritable(why),
            ),
            WriteEvent::BackedUp(None) => WriteAction::Rewrite(self.contents()),
            WriteEvent::BackedUp(Some(why)) => WriteAction::Fail(
                ApplicationError::BackupFileWriteFailed(why),
            ),
            WriteEvent::Rewritten => WriteAction::Finish,
        }
    }
}

} // verus!
