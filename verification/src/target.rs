//! Where commands run: on this machine or on a remote host.
use crate::text::views;
use vstd::prelude::*;

verus! {

pub enum Target {
    Local,
    Remote { host: String, opts: Vec<String> },
}

/// The ssh options that share one connection between the commands.
pub open spec fn ssh_control_opts() -> Seq<Seq<char>> {
    seq![
        "-o"@,
        "ControlMaster=auto"@,
        "-o"@,
        "ControlPersist=60s"@,
        "-o"@,
        "ControlPath=~/.ssh/cp-%r@%h:%p"@,
    ]
}

/// The first `--remote` at or after position `i`.
pub open spec fn find_remote_flag(args: Seq<Seq<char>>, i: int) -> Option<int>
    decreases args.len() - i,
{
    if i >= args.len() {
        None
    } else if args[i] == "--remote"@ {
        Some(i)
    } else {
        find_remote_flag(args, i + 1)
    }
}

/// The host that the command line names: the word after the first
/// `--remote` among the arguments (the program name at position 0 does not
/// count).
pub open spec fn remote_host(args: Seq<Seq<char>>) -> Option<Seq<char>> {
    match find_remote_flag(args, 1) {
        Some(i) => if i + 1 < args.len() {
            Some(args[i + 1])
        } else {
            None
        },
        None => None,
    }
}

proof fn lemma_find_in_range(args: Seq<Seq<char>>, i: int)
    requires
        i >= 0,
    ensures
        find_remote_flag(args, i) matches Some(k) ==> i <= k < args.len() && args[k] == "--remote"@,
    decreases args.len() - i,
{
    if i < args.len() && args[i] != "--remote"@ {
        lemma_find_in_range(args, i + 1);
    }
}

/// Reads the target from the command line `args` (the program name first).
pub fn parse_target(args: &Vec<String>) -> (t: Target)
    ensures
        match remote_host(views(args@)) {
            None => t is Local,
            Some(h) => t matches Target::Remote { host, opts } && host@ == h && views(opts@)
                == ssh_control_opts(),
        },
{
    let flag = "--remote".to_string();
    let ghost vs = views(args@);
    let mut i: usize = 1;
    while i < args.len()
        invariant
            1 <= i,
            vs == views(args@),
            flag@ == "--remote"@,
            find_remote_flag(vs, 1) == find_remote_flag(vs, i as int),
        decreases args.len() - i,
    {
        if args[i] == flag {
            proof {
                assert(vs[i as int] == args@[i as int]@);
            }
            if i + 1 < args.len() {
                let host = args[i + 1].clone();
                let mut opts: Vec<String> = Vec::new();
                opts.push("-o".to_string());
                opts.push("ControlMaster=auto".to_string());
                opts.push("-o".to_string());
                opts.push("ControlPersist=60s".to_string());
                opts.push("-o".to_string());
                opts.push("ControlPath=~/.ssh/cp-%r@%h:%p".to_string());
                assert(views(opts@) =~= ssh_control_opts());
                return Target::Remote { host, opts };
            }
            return Target::Local;
        }
        proof {
            assert(vs[i as int] == args@[i as int]@);
        }
        i += 1;
    }
    Target::Local
}

/// Runs commands on this machine.
pub struct LocalExecutor;

} // verus!
