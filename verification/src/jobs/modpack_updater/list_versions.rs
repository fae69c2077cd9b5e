//! Listing the modpack versions newer than the installed one.
use crate::message::Tagged;
use crate::scene::Registrar;
use crate::text::views;
use vstd::prelude::*;

verus! {

/// Where the list of released versions is published.
pub const MANIFEST: &'static str = "https://downloads.gtnewhorizons.com/versions.json";

pub struct ListVersionsJob {
    pub current: Option<String>,
}

pub struct ListVersionsMessage {
    pub versions: Vec<String>,
}

/// Where `v` first occurs in `keys`.
pub open spec fn first_index(keys: Seq<Seq<char>>, v: Seq<char>, i: int) -> Option<int>
    decreases keys.len() - i,
{
    if i >= keys.len() {
        None
    } else if keys[i] == v {
        Some(i)
    } else {
        first_index(keys, v, i + 1)
    }
}

/// The versions listed before `v` in the manifest; none when the manifest
/// does not list `v`.
pub open spec fn listed_before(keys: Seq<Seq<char>>, v: Seq<char>) -> Seq<Seq<char>> {
    match first_index(keys, v, 0) {
        Some(i) => keys.take(i),
        None => Seq::empty(),
    }
}

impl Default for ListVersionsJob {
    fn default() -> (j: Self)
        ensures
            j.current is None,
    {
        ListVersionsJob { current: None }
    }
}

impl Default for ListVersionsMessage {
    fn default() -> (m: Self)
        ensures
            m.versions@.len() == 0,
    {
        ListVersionsMessage { versions: Vec::new() }
    }
}

proof fn lemma_first_index_in_range(keys: Seq<Seq<char>>, v: Seq<char>, i: int)
    requires
        0 <= i,
    ensures
        first_index(keys, v, i) matches Some(k) ==> i <= k < keys.len() && keys[k] == v,
    decreases keys.len() - i,
{
    if i < keys.len() && keys[i] != v {
        lemma_first_index_in_range(keys, v, i + 1);
    }
}

/// The search from `j` finds the first place of `v` at or after `j`.
proof fn lemma_first_index_at(keys: Seq<Seq<char>>, v: Seq<char>, i: int, j: int)
    requires
        0 <= j <= i < keys.len(),
        keys[i] == v,
        forall|k: int| 0 <= k < i ==> keys[k] != v,
    ensures
        first_index(keys, v, j) == Some(i),
    decreases i - j,
{
    if j < i {
        lemma_first_index_at(keys, v, i, j + 1);
    }
}

/// The search from `j` finds nothing in a manifest that does not list `v`.
proof fn lemma_first_index_absent(keys: Seq<Seq<char>>, v: Seq<char>, j: int)
    requires
        0 <= j,
        !keys.contains(v),
    ensures
        first_index(keys, v, j) is None,
    decreases keys.len() - j,
{
    if j < keys.len() {
        assert(keys[j] != v);
        lemma_first_index_absent(keys, v, j + 1);
    }
}

/// The versions offered above an installed version are exactly those the
/// manifest lists before the installed one's first place, wherever that
/// place is, the last one included.
pub proof fn lemma_offers_those_before_installed(keys: Seq<Seq<char>>, v: Seq<char>, i: int)
    requires
        0 <= i < keys.len(),
        keys[i] == v,
        forall|k: int| 0 <= k < i ==> keys[k] != v,
    ensures
        listed_before(keys, v) == keys.take(i),
{
    lemma_first_index_at(keys, v, i, 0);
}

/// A manifest that does not list the installed version offers nothing.
pub proof fn lemma_offers_nothing_when_unlisted(keys: Seq<Seq<char>>, v: Seq<char>)
    requires
        !keys.contains(v),
    ensures
        listed_before(keys, v) == Seq::<Seq<char>>::empty(),
{
    lemma_first_index_absent(keys, v, 0);
}

impl ListVersionsJob {
    pub fn new(current: &str) -> (j: Self)
        ensures
            j.current matches Some(c) && c@ == current@,
    {
        ListVersionsJob { current: Some(current.to_string()) }
    }

    /// Subscribes a scene to what this job reports.
    pub fn subscribe(reg: &mut Registrar)
        ensures
            final(reg).spec_subs().len() == old(reg).spec_subs().len() + 1,
            final(reg).spec_subs().drop_last() == old(reg).spec_subs(),
    {
        reg.on::<Tagged<ListVersionsMessage>>();
    }

    /// The versions to offer, from the manifest's versions in the order they
    /// were read: all of them when no version is installed, otherwise those
    /// listed before the installed one.
    pub fn versions_to_offer(&self, keys: &Vec<String>) -> (r: Vec<String>)
        ensures
            views(r@) == match self.current {
                None => views(keys@),
                Some(c) => listed_before(views(keys@), c@),
            },
    {
        let ghost ks = views(keys@);
        let mut r: Vec<String> = Vec::new();
        let mut i: usize = 0;
        match &self.current {
            None => {
                while i < keys.len()
                    invariant
                        i <= keys.len(),
                        ks == views(keys@),
                        views(r@) == ks.take(i as int),
                    decreases keys.len() - i,
                {
                    let ghost prev = r@;
                    let k = keys[i].clone();
                    assert(k@ == ks[i as int]);
                    r.push(k);
                    assert(views(r@) =~= views(prev).push(ks[i as int]));
                    assert(ks.take(i as int + 1) =~= ks.take(i as int).push(ks[i as int]));
                    i += 1;
                }
                assert(ks.take(keys.len() as int) =~= ks);
                r
            },
            Some(c) => {
                while i < keys.len()
                    invariant
                        i <= keys.len(),
                        ks == views(keys@),
                        views(r@) == ks.take(i as int),
                        first_index(ks, c@, 0) == first_index(ks, c@, i as int),
                        self.current == Some(*c),
                    decreases keys.len() - i,
                {
                    if keys[i] == *c {
                        assert(ks[i as int] == c@);
                        return r;
                    }
                    let ghost prev = r@;
                    let k = keys[i].clone();
                    assert(k@ == ks[i as int]);
                    r.push(k);
                    assert(views(r@) =~= views(prev).push(ks[i as int]));
                    assert(ks.take(i as int + 1) =~= ks.take(i as int).push(ks[i as int]));
                    i += 1;
                }
                Vec::new()
            },
        }
    }

    /// What the job reports: no versions when the manifest could not be read.
    pub fn outcome(&self, keys: Option<Vec<String>>) -> (m: ListVersionsMessage)
        ensures
            match keys {
                None => m.versions@.len() == 0,
                Some(k) => views(m.versions@) == match self.current {
                    None => views(k@),
                    Some(c) => listed_before(views(k@), c@),
                },
            },
    {
        match keys {
            None => ListVersionsMessage::default(),
            Some(k) => ListVersionsMessage { versions: self.versions_to_offer(&k) },
        }
    }
}

} // verus!
