//! Managing the users of the server: their accounts and their roles.
use vstd::prelude::*;

pub mod create_user;
pub mod delete_user;
pub mod list_users;
pub mod set_role;

verus! {

/// The helper that performs user management with elevated rights.
pub const HELPER: &'static str = "/usr/local/sbin/mcconsole-usermgmt";

#[derive(Clone, Copy, PartialEq, Eq, Structural, Debug)]
pub enum Role {
    Viewer,
    Operator,
    Admin,
}

/// The name by which the helper knows a role.
pub open spec fn role_name(r: Role) -> Seq<char> {
    match r {
        Role::Viewer => "viewer"@,
        Role::Operator => "operator"@,
        Role::Admin => "admin"@,
    }
}

/// A name that stands for a role.
pub open spec fn is_role_name(s: Seq<char>) -> bool {
    s == "viewer"@ || s == "operator"@ || s == "admin"@
}

impl Role {
    /// The role that a name stands for.
    pub fn from(value: String) -> (r: Role)
        requires
            is_role_name(value@),
        ensures
            role_name(r) == value@,
    {
        if value == "viewer".to_string() {
            Role::Viewer
        } else if value == "operator".to_string() {
            Role::Operator
        } else {
            Role::Admin
        }
    }

    /// The name by which the helper knows this role.
    pub fn name(&self) -> (s: &'static str)
        ensures
            s@ == role_name(*self),
    {
        match self {
            Role::Viewer => "viewer",
            Role::Operator => "operator",
            Role::Admin => "admin",
        }
    }
}

/// Each role has its own name: reading a role's name gives the role back.
pub proof fn lemma_role_name_round_trip(r: Role, s: Role)
    ensures
        is_role_name(role_name(r)),
        role_name(r) == role_name(s) ==> r == s,
{
    reveal_strlit("viewer");
    reveal_strlit("operator");
    reveal_strlit("admin");
    assert("viewer"@.len() == 6);
    assert("operator"@.len() == 8);
    assert("admin"@.len() == 5);
}

} // verus!
