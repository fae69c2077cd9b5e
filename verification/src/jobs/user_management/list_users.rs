//! Listing the users of each role.
use crate::command::{Command, Output};
use crate::message::Tagged;
use crate::scene::Registrar;
use crate::text::{after_last, split_char, split_on, utf8_string, views};
use vstd::prelude::*;
use vstd::utf8::{decode_utf8, valid_utf8};

verus! {

pub const MC_VIEWER: &'static str = "mc-viewer";

pub const MC_OPERATOR: &'static str = "mc-operator";

pub const MC_ADMIN: &'static str = "mc-admin";

pub struct ListUsersJob;

pub enum ListUsersMessage {
    Failed(),
    Succeeded { viewers: Vec<String>, operators: Vec<String>, admins: Vec<String> },
}

/// The members that a group line of `getent` lists: the names after the
/// last colon, separated by commas.
pub open spec fn users_of_line(line: Seq<char>) -> Seq<Seq<char>> {
    split_on(after_last(line, ':'), ',')
}

/// The lines of the `getent` output, as `split('\n')` gives them.
pub open spec fn group_lines(out: Seq<u8>) -> Seq<Seq<char>> {
    split_on(decode_utf8(out), '\n')
}

/// Reads the members of a group from its `getent` line.
pub fn line_to_users(line: &str) -> (r: Vec<String>)
    ensures
        views(r@) == users_of_line(line@),
{
    let parts = split_char(line, ':');
    proof {
        crate::text::lemma_split_on_nonempty(line@, ':');
        assert(views(parts@).len() == parts@.len());
    }
    let last = &parts[parts.len() - 1];
    proof {
        assert(last@ == views(parts@).last());
    }
    split_char(last.as_str(), ',')
}

impl ListUsersJob {
    /// Subscribes a scene to what this job reports.
    pub fn subscribe(reg: &mut Registrar)
        ensures
            final(reg).spec_subs().len() == old(reg).spec_subs().len() + 1,
            final(reg).spec_subs().drop_last() == old(reg).spec_subs(),
    {
        reg.on::<Tagged<ListUsersMessage>>();
    }

    /// `getent group mc-viewer mc-operator mc-admin`
    pub fn command(&self) -> (c: Command)
        ensures
            c@.program == "getent"@,
            c@.args == seq!["group"@, MC_VIEWER@, MC_OPERATOR@, MC_ADMIN@],
    {
        let c = Command::new("getent").arg("group").arg(MC_VIEWER).arg(MC_OPERATOR).arg(MC_ADMIN);
        assert(c@.args =~= seq!["group"@, MC_VIEWER@, MC_OPERATOR@, MC_ADMIN@]);
        c
    }

    /// What the job reports: `None` means the command could not be run.
    /// The first three lines of the output list the viewers, the operators
    /// and the admins.
    pub fn outcome(&self, result: Option<Output>) -> (m: ListUsersMessage)
        requires
            match result {
                Some(o) => o.code == 0 && valid_utf8(o.stdout@) ==> group_lines(o.stdout@).len() >= 3,
                None => true,
            },
        ensures
            match result {
                Some(o) if o.code == 0 && valid_utf8(o.stdout@) => m matches ListUsersMessage::Succeeded {
                    viewers,
                    operators,
                    admins,
                } && views(viewers@) == users_of_line(group_lines(o.stdout@)[0]) && views(operators@)
                    == users_of_line(group_lines(o.stdout@)[1]) && views(admins@) == users_of_line(
                    group_lines(o.stdout@)[2],
                ),
                _ => m is Failed,
            },
    {
        let o = match result {
            None => {
                return ListUsersMessage::Failed();
            },
            Some(o) => o,
        };
        if !o.success() {
            return ListUsersMessage::Failed();
        }
        let ghost bytes = o.stdout@;
        let text = match utf8_string(o.stdout) {
            None => {
                return ListUsersMessage::Failed();
            },
            Some(t) => t,
        };
        let groups = split_char(text.as_str(), '\n');
        proof {
            assert(views(groups@).len() == groups@.len());
            assert(groups@[0]@ == group_lines(bytes)[0]);
            assert(groups@[1]@ == group_lines(bytes)[1]);
            assert(groups@[2]@ == group_lines(bytes)[2]);
        }
        let viewers = line_to_users(groups[0].as_str());
        let operators = line_to_users(groups[1].as_str());
        let admins = line_to_users(groups[2].as_str());
        ListUsersMessage::Succeeded { viewers, operators, admins }
    }
}

} // verus!
