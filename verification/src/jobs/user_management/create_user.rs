//! Creating a user account with a role and an ssh public key.
use crate::command::{Command, Output, Reason, reason_of_exit};
use crate::jobs::user_management::{HELPER, Role, role_name};
use crate::message::Tagged;
use crate::scene::Registrar;
use vstd::prelude::*;

verus! {

pub struct CreateUserJob {
    pub user: String,
    pub role: Role,
    pub pubkey: Vec<u8>,
}

pub enum CreateUserMessage {
    Failed(Reason),
    Succeeded(String),
}

impl CreateUserJob {
    pub fn new(user: &str, role: Role, pubkey: Vec<u8>) -> (j: Self)
        ensures
            j.user@ == user@,
            j.role == role,
            j.pubkey@ == pubkey@,
    {
        CreateUserJob { user: user.to_string(), role, pubkey }
    }

    /// Subscribes a scene to what this job reports.
    pub fn subscribe(reg: &mut Registrar)
        ensures
            final(reg).spec_subs().len() == old(reg).spec_subs().len() + 1,
            final(reg).spec_subs().drop_last() == old(reg).spec_subs(),
    {
        reg.on::<Tagged<CreateUserMessage>>();
    }

    /// `pkexec HELPER user role`, with the public key on its standard input.
    pub fn command(&self) -> (c: Command)
        ensures
            c@.program == "pkexec"@,
            c@.args == seq![HELPER@, self.user@, role_name(self.role)],
    {
        let c = Command::new("pkexec").arg(HELPER).arg(self.user.as_str()).arg(self.role.name());
        assert(c@.args =~= seq![HELPER@, self.user@, role_name(self.role)]);
        c
    }

    /// What the job reports: `None` means the command could not be run.
    pub fn outcome(self, result: Option<Output>) -> (m: CreateUserMessage)
        ensures
            match result {
                None => m == CreateUserMessage::Failed(Reason::Internal),
                Some(o) => if o.code != 0 {
                    m == CreateUserMessage::Failed(reason_of_exit(o.code))
                } else {
                    m matches CreateUserMessage::Succeeded(u) && u@ == self.user@
                },
            },
    {
        match result {
            None => CreateUserMessage::Failed(Reason::Internal),
            Some(o) => {
                if !o.success() {
                    CreateUserMessage::Failed(Reason::from_exit(o.code))
                } else {
                    CreateUserMessage::Succeeded(self.user)
                }
            },
        }
    }
}

} // verus!
