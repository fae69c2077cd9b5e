//! Listing a directory.
use crate::message::Tagged;
use crate::scene::Registrar;
use vstd::prelude::*;

verus! {

pub struct ListDirJob {
    pub path: String,
}

pub struct ListDirMessage {
    pub files: Vec<String>,
}

impl ListDirJob {
    pub fn new(path: &str) -> (j: Self)
        ensures
            j.path@ == path@,
    {
        ListDirJob { path: path.to_string() }
    }

    /// Subscribes a scene to what this job reports.
    pub fn subscribe(reg: &mut Registrar)
        ensures
            final(reg).spec_subs().len() == old(reg).spec_subs().len() + 1,
            final(reg).spec_subs().drop_last() == old(reg).spec_subs(),
    {
        reg.on::<Tagged<ListDirMessage>>();
    }

    /// What the job reports: nothing when the directory could not be listed.
    pub fn outcome(result: Option<Vec<String>>) -> (m: Option<ListDirMessage>)
        ensures
            match result {
                None => m is None,
                Some(files) => m matches Some(msg) && msg.files == files,
            },
    {
        match result {
            None => None,
            Some(files) => Some(ListDirMessage { files }),
        }
    }
}

} // verus!
