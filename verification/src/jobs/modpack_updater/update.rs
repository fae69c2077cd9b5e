//! Updating the modpack to a version.
use crate::command::{Command, Output};
use crate::message::Tagged;
use crate::scene::Registrar;
use vstd::prelude::*;

verus! {

/// The helper that updates the modpack with elevated rights.
pub const HELPER: &'static str = "/usr/local/sbin/mcconsole-modpack-update";

pub struct UpdateJob {
    pub version: String,
}

pub enum UpdateMessage {
    Failed,
    Succeeded,
}

impl UpdateJob {
    pub fn new(version: &str) -> (j: Self)
        ensures
            j.version@ == version@,
    {
        UpdateJob { version: version.to_string() }
    }

    /// Subscribes a scene to what this job reports.
    pub fn subscribe(reg: &mut Registrar)
        ensures
            final(reg).spec_subs().len() == old(reg).spec_subs().len() + 1,
            final(reg).spec_subs().drop_last() == old(reg).spec_subs(),
    {
        reg.on::<Tagged<UpdateMessage>>();
    }

    /// `pkexec HELPER version`
    pub fn command(&self) -> (c: Command)
        ensures
            c@.program == "pkexec"@,
            c@.args == seq![HELPER@, self.version@],
    {
        let c = Command::new("pkexec").arg(HELPER).arg(self.version.as_str());
        assert(c@.args =~= seq![HELPER@, self.version@]);
        c
    }

    /// What the job reports: `None` means the command could not be run.
    pub fn outcome(result: Option<Output>) -> (m: UpdateMessage)
        ensures
            match result {
                Some(o) if o.code == 0 => m is Succeeded,
                _ => m is Failed,
            },
    {
        match result {
            None => UpdateMessage::Failed,
            Some(o) => {
                if !o.success() {
                    UpdateMessage::Failed
                } else {
                    UpdateMessage::Succeeded
                }
            },
        }
    }
}

} // verus!
