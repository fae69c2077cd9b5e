//! Changing the role of a user.
use crate::command::{Command, Output};
use crate::jobs::user_management::{HELPER, Role, role_name};
use crate::message::Tagged;
use crate::scene::Registrar;
use vstd::prelude::*;

verus! {

pub struct SetRoleJob {
    pub user: String,
    pub role: Role,
}

pub enum SetRoleMessage {
    Failed(),
    Succeeded(String),
}

impl SetRoleJob {
    pub fn new(user: &str, role: Role) -> (j: Self)
        ensures
            j.user@ == user@,
            j.role == role,
    {
        SetRoleJob { user: user.to_string(), role }
    }

    /// Subscribes a scene to what this job reports.
    pub fn subscribe(reg: &mut Registrar)
        ensures
            final(reg).spec_subs().len() == old(reg).spec_subs().len() + 1,
            final(reg).spec_subs().drop_last() == old(reg).spec_subs(),
    {
        reg.on::<Tagged<SetRoleMessage>>();
    }

    /// `pkexec HELPER user role`
    pub fn command(&self) -> (c: Command)
        ensures
            c@.program == "pkexec"@,
            c@.args == seq![HELPER@, self.user@, role_name(self.role)],
    {
        let c = Command::new("pkexec").arg(HELPER).arg(self.user.as_str()).arg(self.role.name());
        assert(c@.args =~= seq![HELPER@, self.user@, role_name(self.role)]);
        c
    }

    /// What the job reports: `None` means the command could not be run.
    pub fn outcome(self, result: Option<Output>) -> (m: SetRoleMessage)
        ensures
            match result {
                Some(o) if o.code == 0 => m matches SetRoleMessage::Succeeded(u) && u@ == self.user@,
                _ => m is Failed,
            },
    {
        match result {
            None => SetRoleMessage::Failed(),
            Some(o) => {
                if !o.success() {
                    SetRoleMessage::Failed()
                } else {
                    SetRoleMessage::Succeeded(self.user)
                }
            },
        }
    }
}

} // verus!
