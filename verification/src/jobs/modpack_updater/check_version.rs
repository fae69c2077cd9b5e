//! Reading the installed modpack version.
use crate::message::Message;
use crate::scene::Registrar;
use crate::text::utf8_string;
use vstd::prelude::*;
use vstd::utf8::{decode_utf8, valid_utf8};

verus! {

/// Where the installed version is written.
pub const VERSION_FILE: &'static str = "/opt/minecraft/.mcconsole-pack-version";

pub struct CheckVersionJob;

pub struct CheckVersionMessage {
    pub version: Option<String>,
}

impl Message for CheckVersionMessage {
}

/// The version that a version file holds: its text, unless it is empty or
/// not UTF-8.
pub open spec fn version_in(contents: Seq<u8>) -> Option<Seq<char>> {
    if valid_utf8(contents) && decode_utf8(contents).len() > 0 {
        Some(decode_utf8(contents))
    } else {
        None
    }
}

impl CheckVersionJob {
    /// Subscribes a scene to what this job reports.
    pub fn subscribe(reg: &mut Registrar)
        ensures
            final(reg).spec_subs().len() == old(reg).spec_subs().len() + 1,
            final(reg).spec_subs().drop_last() == old(reg).spec_subs(),
    {
        reg.on::<CheckVersionMessage>();
    }

    /// What the job reports, from the contents of the version file (`None`
    /// when it could not be read).
    pub fn outcome(contents: Option<Vec<u8>>) -> (m: CheckVersionMessage)
        ensures
            match contents {
                None => m.version is None,
                Some(c) => match version_in(c@) {
                    None => m.version is None,
                    Some(v) => m.version matches Some(s) && s@ == v,
                },
            },
    {
        let bytes = match contents {
            None => Vec::new(),
            Some(c) => c,
        };
        let ghost b = bytes@;
        let text = match utf8_string(bytes) {
            None => String::new(),
            Some(t) => t,
        };
        proof {
            if !valid_utf8(b) {
                assert(text@ == Seq::<char>::empty());
            }
        }
        if text.unicode_len() == 0 {
            CheckVersionMessage { version: None }
        } else {
            CheckVersionMessage { version: Some(text) }
        }
    }
}

} // verus!
