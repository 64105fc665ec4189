//! Subfolders that were listed in the background, shared by the sidebar tree
//! and the breadcrumb menus.

use crate::path::is_same_path;
use crate::text::clone_strings;
use crate::{path, text};
use vstd::prelude::*;

verus! {

/// What is known of the subfolders of one folder.
#[derive(Debug, PartialEq, Eq)]
struct SubdirNode {
    dir: String,
    /// The subfolders; nothing while they are still being listed.
    listing: Option<Vec<String>>,
}

/// The subfolders that are known, and the listings in flight.
#[derive(Debug, PartialEq, Eq)]
pub struct SubdirCache {
    nodes: Vec<SubdirNode>,
}

/// What a background listing has come to.
#[derive(Debug, PartialEq, Eq)]
pub enum JobReply {
    /// It is still running.
    Pending,
    /// It ended with these subfolders.
    Listed(Vec<String>),
    /// It ended with an error, or without a word.
    Failed,
}

/// What is to be done about the subfolders of a folder.
#[derive(Debug, PartialEq, Eq)]
pub enum SubdirPoll {
    /// They can be shown.
    Ready(Vec<String>),
    /// A background listing has to be started.
    Start,
    /// The background listing is still running.
    Wait,
}

/// The state of one folder: nothing is known of it, its listing is in flight,
/// or its subfolders are known.
#[verifier::ext_equal]
pub enum SubdirState {
    Unknown,
    InFlight,
    Known(Seq<Seq<char>>),
}

spec fn node_state(n: SubdirNode) -> SubdirState {
    match n.listing {
        Some(list) => SubdirState::Known(text::texts(list@)),
        None => SubdirState::InFlight,
    }
}

/// The state of `dir` as the last node about it has it.
spec fn state_in(nodes: Seq<SubdirNode>, dir: Seq<char>) -> SubdirState
    decreases nodes.len(),
{
    if nodes.len() == 0 {
        SubdirState::Unknown
    } else if path::same_path(nodes.last().dir@, dir) {
        node_state(nodes.last())
    } else {
        state_in(nodes.drop_last(), dir)
    }
}

/// What the answer of a background listing makes of the folder.
pub open spec fn replied(reply: JobReply) -> SubdirState {
    match reply {
        JobReply::Pending => SubdirState::InFlight,
        JobReply::Listed(list) => SubdirState::Known(text::texts(list@)),
        JobReply::Failed => SubdirState::Known(Seq::empty()),
    }
}

/// The state that `poll_subdirs` leaves a folder in, given the state before
/// and the answer of the listing.
pub open spec fn polled(s: SubdirState, reply: JobReply) -> SubdirState {
    match s {
        SubdirState::Known(list) => s,
        SubdirState::InFlight => replied(reply),
        SubdirState::Unknown => SubdirState::InFlight,
    }
}

impl SubdirCache {
    /// The state of the folder `dir`.
    pub closed spec fn state(self, dir: Seq<char>) -> SubdirState {
        state_in(self.nodes@, dir)
    }

    /// Every folder but `dir` is in the same state as in `other`.
    pub open spec fn same_but(self, other: SubdirCache, dir: Seq<char>) -> bool {
        forall|q: Seq<char>|
            !path::same_path(q, dir) ==> #[trigger] self.state(q) == other.state(q)
    }

    /// A cache that knows nothing.
    pub fn new() -> (r: Self)
        ensures
            forall|q: Seq<char>| #[trigger] r.state(q) == SubdirState::Unknown,
    {
        SubdirCache { nodes: Vec::new() }
    }

    /// Forgets all about `dir`, so that it is listed anew.
    pub fn forget(&mut self, dir: &str)
        ensures
            final(self).same_but(*old(self), dir@),
            forall|q: Seq<char>|
                path::same_path(q, dir@) ==> #[trigger] final(self).state(q)
                    == SubdirState::Unknown,
    {
        let mut kept: Vec<SubdirNode> = Vec::new();
        let mut nodes: Vec<SubdirNode> = Vec::new();
        std::mem::swap(&mut nodes, &mut self.nodes);
        let ghost all = nodes@;
        for node in it: nodes
            invariant
                it.seq() == all,
                forall|q: Seq<char>|
                    !path::same_path(q, dir@) ==> #[trigger] state_in(kept@, q) == state_in(
                        all.subrange(0, it.index() as int),
                        q,
                    ),
                forall|q: Seq<char>|
                    path::same_path(q, dir@) ==> #[trigger] state_in(kept@, q)
                        == SubdirState::Unknown,
        {
            let ghost i = it.index() as int;
            let ghost was = kept@;
            proof {
                let upto = all.subrange(0, i + 1);
                assert(upto.drop_last() =~= all.subrange(0, i));
                assert(upto.last() == node);
            }
            if !is_same_path(node.dir.as_str(), dir) {
                kept.push(node);
                assert(kept@.drop_last() =~= was);
            }
            assert forall|q: Seq<char>| !path::same_path(q, dir@) implies #[trigger] state_in(
                kept@,
                q,
            ) == state_in(all.subrange(0, i + 1), q) by {
                assert(state_in(was, q) == state_in(all.subrange(0, i), q));
            }
            assert forall|q: Seq<char>| path::same_path(q, dir@) implies #[trigger] state_in(
                kept@,
                q,
            ) == SubdirState::Unknown by {
                assert(state_in(was, q) == SubdirState::Unknown);
            }
        }
        assert(all.subrange(0, all.len() as int) =~= all);
        self.nodes = kept;
    }

    fn put(&mut self, dir: &str, listing: Option<Vec<String>>)
        ensures
            final(self).same_but(*old(self), dir@),
            forall|q: Seq<char>|
                path::same_path(q, dir@) ==> #[trigger] final(self).state(q) == (match listing {
                    Some(list) => SubdirState::Known(text::texts(list@)),
                    None => SubdirState::InFlight,
                }),
    {
        self.forget(dir);
        let ghost was = self.nodes@;
        let ghost between = *self;
        self.nodes.push(SubdirNode { dir: dir.to_owned(), listing });
        assert(self.nodes@.drop_last() =~= was);
        assert forall|q: Seq<char>| !path::same_path(q, dir@) implies #[trigger] self.state(q)
            == old(self).state(q) by {
            assert(between.state(q) == old(self).state(q));
        }
    }

    /// The place of the last node about `dir`.
    fn find(&self, dir: &str) -> (r: Option<usize>)
        ensures
            match r {
                Some(i) => i < self.nodes@.len() && self.state(dir@) == node_state(
                    self.nodes@[i as int],
                ),
                None => self.state(dir@) == SubdirState::Unknown,
            },
    {
        let mut i: usize = self.nodes.len();
        assert(self.nodes@.subrange(0, i as int) =~= self.nodes@);
        while i > 0
            invariant
                i <= self.nodes.len(),
                self.state(dir@) == state_in(self.nodes@.subrange(0, i as int), dir@),
            decreases i,
        {
            i = i - 1;
            proof {
                let upto = self.nodes@.subrange(0, i + 1);
                assert(upto.drop_last() =~= self.nodes@.subrange(0, i as int));
                assert(upto.last() == self.nodes@[i as int]);
            }
            if is_same_path(self.nodes[i].dir.as_str(), dir) {
                return Some(i);
            }
        }
        None
    }

    /// Whether a background listing of `dir` is in flight, so that its answer
    /// can be asked for.
    pub fn in_flight(&self, dir: &str) -> (r: bool)
        ensures
            r == (self.state(dir@) == SubdirState::InFlight),
    {
        match self.find(dir) {
            Some(i) => self.nodes[i].listing.is_none(),
            None => false,
        }
    }

    /// Resolves the subfolders of `dir`. `reply` is what the background listing
    /// of `dir` has come to; it counts only where one is in flight. A listing
    /// that fails leaves the folder without subfolders.
    pub fn poll_subdirs(&mut self, dir: &str, reply: JobReply) -> (r: SubdirPoll)
        ensures
            final(self).same_but(*old(self), dir@),
            final(self).state(dir@) == polled(old(self).state(dir@), reply),
            match final(self).state(dir@) {
                SubdirState::Known(list) => r matches SubdirPoll::Ready(out) && text::texts(out@)
                    == list,
                _ => r == (if old(self).state(dir@) == SubdirState::Unknown {
                    SubdirPoll::Start
                } else {
                    SubdirPoll::Wait
                }),
            },
    {
        match self.find(dir) {
            Some(i) => {
                match &self.nodes[i].listing {
                    Some(list) => {
                        return SubdirPoll::Ready(clone_strings(list));
                    },
                    None => {},
                }
                let list: Vec<String> = match reply {
                    JobReply::Pending => {
                        return SubdirPoll::Wait;
                    },
                    JobReply::Listed(list) => list,
                    JobReply::Failed => Vec::new(),
                };
                assert(reply is Failed ==> text::texts(list@) =~= Seq::<Seq<char>>::empty());
                let shown = clone_strings(&list);
                self.put(dir, Some(list));
                SubdirPoll::Ready(shown)
            },
            None => {
                self.put(dir, None);
                SubdirPoll::Start
            },
        }
    }
}

/// A folder that has been listed is answered from the cache: whatever later
/// answers say, its subfolders stay.
pub proof fn law_listed_folders_stay(s: SubdirState, first: JobReply, later: JobReply)
    requires
        s == SubdirState::InFlight,
        !(first is Pending),
    ensures
        polled(s, first) is Known,
        polled(polled(s, first), later) == polled(s, first),
{
}

/// A folder that nothing is known of is listed in the background once, and is
/// answered with the subfolders that this listing found.
pub proof fn law_subfolders_are_those_found(list: Vec<String>)
    ensures
        forall|c: &mut SubdirCache, dir: &str, reply: JobReply, r: SubdirPoll| #[trigger]
            call_ensures(SubdirCache::poll_subdirs, (c, dir, reply), r) ==> {
                &&& c.state(dir@) == SubdirState::Unknown ==> r == SubdirPoll::Start && final(
                    c
                ).state(dir@) == SubdirState::InFlight
                &&& c.state(dir@) == SubdirState::InFlight && reply is Pending ==> r
                    == SubdirPoll::Wait && final(c).state(dir@) == SubdirState::InFlight
                &&& c.state(dir@) == SubdirState::InFlight && reply == JobReply::Listed(list) ==> (
                r matches SubdirPoll::Ready(out) && text::texts(out@) == text::texts(list@))
                    && final(c).state(dir@) == SubdirState::Known(text::texts(list@))
                &&& c.state(dir@) == SubdirState::Known(text::texts(list@)) ==> (
                r matches SubdirPoll::Ready(out) && text::texts(out@) == text::texts(list@))
                    && final(c).state(dir@) == c.state(dir@)
                &&& c.state(dir@) == SubdirState::InFlight && reply is Failed ==> (
                r matches SubdirPoll::Ready(out) && out@.len() == 0)
            },
{
    assert forall|c: &mut SubdirCache, dir: &str, reply: JobReply, r: SubdirPoll| #[trigger]
        call_ensures(SubdirCache::poll_subdirs, (c, dir, reply), r) && c.state(dir@)
            == SubdirState::InFlight && reply is Failed implies (r matches SubdirPoll::Ready(out)
        && out@.len() == 0) by {
        assert(text::texts(r->Ready_0@).len() == r->Ready_0@.len());
    }
}

} // verus!
