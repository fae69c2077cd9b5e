//! Following the log of the modpack updater.
use crate::command::Command;
use crate::message::{JobDone, LogLine, Tagged};
use crate::scene::Registrar;
use vstd::prelude::*;

verus! {

/// The journal tag of the modpack updater.
pub const TAG: &'static str = "mcconsole-modpack-update";

pub struct UpdaterLogReaderJob;

/// What to do with the next line of a followed log.
pub enum LineStep {
    /// The job was cancelled: stop following.
    Stop,
    /// The line could not be read: go on with the next one.
    Skip,
    /// Send the line.
    Emit(LogLine),
}

impl UpdaterLogReaderJob {
    /// Subscribes a scene to what this job reports: its lines, then that it is done.
    pub fn subscribe(reg: &mut Registrar)
        ensures
            final(reg).spec_subs().len() == old(reg).spec_subs().len() + 2,
            final(reg).spec_subs().take(old(reg).spec_subs().len() as int) == old(reg).spec_subs(),
    {
        reg.on::<Tagged<LogLine>>();
        reg.on::<Tagged<JobDone>>();
        assert(reg.spec_subs().take(old(reg).spec_subs().len() as int) =~= old(reg).spec_subs());
    }

    /// `journalctl -t TAG -o cat -n 0 -f`: the updater's new log lines, as they come.
    pub fn command(&self) -> (c: Command)
        ensures
            c@.program == "journalctl"@,
            c@.args == seq!["-t"@, TAG@, "-o"@, "cat"@, "-n"@, "0"@, "-f"@],
    {
        let c = Command::new("journalctl").arg("-t").arg(TAG).arg("-o").arg("cat").arg("-n").arg("0").arg("-f");
        assert(c@.args =~= seq!["-t"@, TAG@, "-o"@, "cat"@, "-n"@, "0"@, "-f"@]);
        c
    }

    /// Decides about the next line of the log (`None`: it could not be read).
    pub fn on_line(cancelled: bool, line: Option<String>) -> (s: LineStep)
        ensures
            cancelled ==> s is Stop,
            !cancelled && line is None ==> s is Skip,
            !cancelled ==> (line matches Some(l) ==> s matches LineStep::Emit(m) && m.line == l),
    {
        if cancelled {
            LineStep::Stop
        } else {
            match line {
                None => LineStep::Skip,
                Some(l) => LineStep::Emit(LogLine { line: l }),
            }
        }
    }

    /// What the job reports when following the log ends: `started` tells
    /// whether the log could be followed at all.
    pub fn done(started: bool) -> (d: JobDone)
        ensures
            d.ok == started,
    {
        JobDone { ok: started }
    }
}

} // verus!
