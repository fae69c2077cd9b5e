//! Deleting a user account.
use crate::command::{Command, Output, Reason, reason_of_exit};
use crate::jobs::user_management::HELPER;
use crate::message::Tagged;
use crate::scene::Registrar;
use vstd::prelude::*;

verus! {

pub struct DeleteUserJob {
    pub user: String,
}

pub enum DeleteUserMessage {
    Failed(Reason),
    Succeeded(String),
}

impl DeleteUserJob {
    pub fn new(user: &str) -> (j: Self)
        ensures
            j.user@ == user@,
    {
        DeleteUserJob { user: user.to_string() }
    }

    /// Subscribes a scene to what this job reports.
    pub fn subscribe(reg: &mut Registrar)
        ensures
            final(reg).spec_subs().len() == old(reg).spec_subs().len() + 1,
            final(reg).spec_subs().drop_last() == old(reg).spec_subs(),
    {
        reg.on::<Tagged<DeleteUserMessage>>();
    }

    /// `pkexec HELPER user`
    pub fn command(&self) -> (c: Command)
        ensures
            c@.program == "pkexec"@,
            c@.args == seq![HELPER@, self.user@],
    {
        let c = Command::new("pkexec").arg(HELPER).arg(self.user.as_str());
        assert(c@.args =~= seq![HELPER@, self.user@]);
        c
    }

    /// What the job reports: `None` means the command could not be run.
    pub fn outcome(self, result: Option<Output>) -> (m: DeleteUserMessage)
        ensures
            match result {
                None => m == DeleteUserMessage::Failed(Reason::Internal),
                Some(o) => if o.code != 0 {
                    m == DeleteUserMessage::Failed(reason_of_exit(o.code))
                } else {
                    m matches DeleteUserMessage::Succeeded(u) && u@ == self.user@
                },
            },
    {
        match result {
            None => DeleteUserMessage::Failed(Reason::Internal),
            Some(o) => {
                if !o.success() {
                    DeleteUserMessage::Failed(Reason::from_exit(o.code))
                } else {
                    DeleteUserMessage::Succeeded(self.user)
                }
            },
        }
    }
}

} // verus!
