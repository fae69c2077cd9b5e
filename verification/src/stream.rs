//! Forwarding the output of a streamed command, line by line.
use crate::message::LogLine;
use vstd::prelude::*;

verus! {

/// What to do with the next line of a streamed command's output.
pub enum StreamStep {
    /// Stop reading.
    Stop,
    /// Send the line to the bus.
    Forward(LogLine),
}

/// Decides about the next line of a streamed command's output (`None`: it
/// could not be read): reading stops when the job was stopped or a line
/// could not be read; otherwise the line is sent on.
pub fn stream_step(stopped: bool, line: Option<String>) -> (s: StreamStep)
    ensures
        stopped || line is None ==> s is Stop,
        !stopped ==> (line matches Some(l) ==> s matches StreamStep::Forward(m) && m.line == l),
{
    if stopped {
        return StreamStep::Stop;
    }
    match line {
        None => StreamStep::Stop,
        Some(l) => StreamStep::Forward(LogLine { line: l }),
    }
}

} // verus!
