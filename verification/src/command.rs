//! Commands to run on the system, their output and the reasons they fail.
use vstd::prelude::*;

verus! {

/// Used to build commands to run on the system.
pub struct Command {
    pub program: String,
    pub args: Vec<String>,
}

/// What a command is: its program and its arguments, as text.
pub struct CommandView {
    pub program: Seq<char>,
    pub args: Seq<Seq<char>>,
}

impl View for Command {
    type V = CommandView;

    open spec fn view(&self) -> CommandView {
        CommandView { program: self.program@, args: self.args@.map_values(|a: String| a@) }
    }
}

impl Command {
    pub fn new(program: &str) -> (c: Self)
        ensures
            c@.program == program@,
            c@.args == Seq::<Seq<char>>::empty(),
    {
        let c = Command { program: program.to_string(), args: Vec::new() };
        assert(c@.args =~= Seq::<Seq<char>>::empty());
        c
    }

    pub fn arg(self, arg: &str) -> (c: Self)
        ensures
            c@.program == self@.program,
            c@.args == self@.args.push(arg@),
    {
        let mut c = self;
        c.args.push(arg.to_string());
        assert(c@.args =~= self@.args.push(arg@));
        c
    }
}

/// The resulting output from running a command.
pub struct Output {
    /// Exit code of the program, if != 0 can be used to create a [Reason] to explain the error.
    pub code: i32,
    pub stdout: Vec<u8>,
    pub stderr: Vec<u8>,
}

impl Output {
    pub fn success(&self) -> (r: bool)
        ensures
            r == (self.code == 0),
    {
        self.code == 0
    }
}

/// Represents all the possible errors when running commands.
#[derive(PartialEq, Eq, Structural, Clone, Copy, Debug)]
pub enum Reason {
    Transport,
    NotAuthorized,
    Killed(i32),
    Usage,
    NoCaller,
    Tier,
    Locked,
    BadInput,
    NotFound,
    Precheck,
    Conflict,
    Refused,
    Internal,
    Unknown(i32),
}

/// The reason that an exit code stands for.
pub open spec fn reason_of_exit(code: i32) -> Reason {
    if code == 10 {
        Reason::Usage
    } else if code == 11 {
        Reason::NoCaller
    } else if code == 12 {
        Reason::Tier
    } else if code == 13 {
        Reason::Locked
    } else if code == 14 {
        Reason::BadInput
    } else if code == 15 {
        Reason::NotFound
    } else if code == 16 {
        Reason::Precheck
    } else if code == 17 {
        Reason::Conflict
    } else if code == 18 {
        Reason::Refused
    } else if code == 19 {
        Reason::Internal
    } else if code == 126 || code == 127 {
        Reason::NotAuthorized
    } else if code == 255 {
        Reason::Transport
    } else if code >= 128 {
        Reason::Killed((code - 128) as i32)
    } else {
        Reason::Unknown(code)
    }
}

impl Reason {
    /// Convert [Output::code] to a [Reason].
    pub fn from_exit(code: i32) -> (r: Self)
        ensures
            r == reason_of_exit(code),
    {
        match code {
            10 => Reason::Usage,
            11 => Reason::NoCaller,
            12 => Reason::Tier,
            13 => Reason::Locked,
            14 => Reason::BadInput,
            15 => Reason::NotFound,
            16 => Reason::Precheck,
            17 => Reason::Conflict,
            18 => Reason::Refused,
            19 => Reason::Internal,
            126 | 127 => Reason::NotAuthorized,
            255 => Reason::Transport,
            c if c >= 128 => Reason::Killed(c - 128),
            c => Reason::Unknown(c),
        }
    }
}

} // verus!
