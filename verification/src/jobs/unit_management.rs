//! Stopping and restarting the server unit.
use crate::command::{Command, Output, Reason, reason_of_exit};
use crate::message::Tagged;
use crate::scene::Registrar;
use vstd::prelude::*;

verus! {

/// The helper that manages the server unit with elevated rights.
pub const HELPER: &'static str = "/usr/local/sbin/mcconsole-notify";

#[derive(Clone, Copy, PartialEq, Eq, Structural, Debug)]
pub enum UnitAction {
    Stop,
    Restart,
}

/// The name by which the helper knows an action.
pub open spec fn action_name(a: UnitAction) -> Seq<char> {
    match a {
        UnitAction::Stop => "stop"@,
        UnitAction::Restart => "restart"@,
    }
}

impl UnitAction {
    /// The action that a name stands for.
    pub fn from(value: String) -> (a: UnitAction)
        requires
            value@ == "stop"@ || value@ == "restart"@,
        ensures
            action_name(a) == value@,
    {
        if value == "stop".to_string() {
            UnitAction::Stop
        } else {
            UnitAction::Restart
        }
    }

    /// The name by which the helper knows this action.
    pub fn name(&self) -> (s: &'static str)
        ensures
            s@ == action_name(*self),
    {
        match self {
            UnitAction::Stop => "stop",
            UnitAction::Restart => "restart",
        }
    }
}

pub struct UnitManagementJob {
    pub action: UnitAction,
}

pub enum UnitManagementMessage {
    Failed(Reason),
    Succeeded(UnitAction),
}

impl UnitManagementJob {
    pub fn new(action: UnitAction) -> (j: Self)
        ensures
            j.action == action,
    {
        UnitManagementJob { action }
    }

    /// Subscribes a scene to what this job reports.
    pub fn subscribe(reg: &mut Registrar)
        ensures
            final(reg).spec_subs().len() == old(reg).spec_subs().len() + 1,
            final(reg).spec_subs().drop_last() == old(reg).spec_subs(),
    {
        reg.on::<Tagged<UnitManagementMessage>>();
    }

    /// `pkexec HELPER action`
    pub fn command(&self) -> (c: Command)
        ensures
            c@.program == "pkexec"@,
            c@.args == seq![HELPER@, action_name(self.action)],
    {
        let c = Command::new("pkexec").arg(HELPER).arg(self.action.name());
        assert(c@.args =~= seq![HELPER@, action_name(self.action)]);
        c
    }

    /// What the job reports: `None` means the command could not be run.
    pub fn outcome(&self, result: Option<Output>) -> (m: UnitManagementMessage)
        ensures
            match result {
                None => m == UnitManagementMessage::Failed(Reason::Internal),
                Some(o) => if o.code != 0 {
                    m == UnitManagementMessage::Failed(reason_of_exit(o.code))
                } else {
                    m == UnitManagementMessage::Succeeded(self.action)
                },
            },
    {
        match result {
            None => UnitManagementMessage::Failed(Reason::Internal),
            Some(o) => {
                if !o.success() {
                    UnitManagementMessage::Failed(Reason::from_exit(o.code))
                } else {
                    UnitManagementMessage::Succeeded(self.action)
                }
            },
        }
    }
}

} // verus!
