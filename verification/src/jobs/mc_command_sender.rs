//! Sending a command to the server console.
use crate::message::Tagged;
use crate::scene::Registrar;
use vstd::prelude::*;

verus! {

pub struct McCommandSenderJob;

pub struct McCommandSentMessage;

impl McCommandSenderJob {
    /// Subscribes a scene to what this job reports.
    pub fn subscribe(reg: &mut Registrar)
        ensures
            final(reg).spec_subs().len() == old(reg).spec_subs().len() + 1,
            final(reg).spec_subs().drop_last() == old(reg).spec_subs(),
    {
        reg.on::<Tagged<McCommandSentMessage>>();
    }
}

} // verus!
