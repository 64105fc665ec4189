//! Listings that are read in the background, and tabs that have to be listed
//! anew.

use crate::fs_entry::FsEntry;
use crate::pane::Pane;
use crate::path::is_same_path;
use crate::tab::Tab;
use crate::path;
use vstd::prelude::*;

verus! {

/// What a background listing has come to.
#[derive(Debug, PartialEq)]
pub enum ListingReply {
    /// It is still running.
    Pending,
    /// It ended with these entries.
    Listed(Vec<FsEntry>),
    /// It ended with an error.
    Failed(String),
}

/// The background listing of one pane: the folder that is being listed.
#[derive(Debug, PartialEq, Eq)]
pub struct ListingJob {
    pub dir: Option<String>,
}

/// The entries of `entries` that are not hidden.
pub open spec fn unhidden(entries: Seq<FsEntry>) -> Seq<FsEntry>
    decreases entries.len(),
{
    if entries.len() == 0 {
        entries
    } else {
        let before = unhidden(entries.drop_last());
        if entries.last().hidden {
            before
        } else {
            before.push(entries.last())
        }
    }
}

/// The entries that are shown, hidden ones only on request.
pub fn without_hidden(entries: Vec<FsEntry>, show_hidden: bool) -> (r: Vec<FsEntry>)
    ensures
        r@ == (if show_hidden {
            entries@
        } else {
            unhidden(entries@)
        }),
{
    if show_hidden {
        return entries;
    }
    let mut r: Vec<FsEntry> = Vec::new();
    let ghost all = entries@;
    assert(all.subrange(0, 0) =~= Seq::<FsEntry>::empty());
    assert(r@ =~= unhidden(all.subrange(0, 0)));
    for e in it: entries
        invariant
            it.seq() == all,
            r@ == unhidden(all.subrange(0, it.index() as int)),
    {
        let ghost i = it.index() as int;
        proof {
            let upto = all.subrange(0, i + 1);
            assert(upto.drop_last() =~= all.subrange(0, i));
            assert(upto.last() == e);
        }
        if !e.hidden {
            r.push(e);
        }
    }
    assert(all.subrange(0, all.len() as int) =~= all);
    r
}

/// What the answer of a finished listing makes of the tab: a listing of a folder
/// that the tab has left meanwhile is dropped, an error keeps the old listing.
pub open spec fn listed(after: Tab, before: Tab, reply: ListingReply, show_hidden: bool) -> bool {
    match reply {
        ListingReply::Pending => after == before,
        ListingReply::Listed(entries) => {
            &&& after.wf()
            &&& after.listing@ == (if show_hidden {
                entries@
            } else {
                unhidden(entries@)
            })
            &&& after.listing_error is None
            &&& after.listing_version == before.listing_version.wrapping_add(1)
            &&& after.trail() == before.trail()
            &&& after.selected == before.selected
            &&& after.filter == before.filter
            &&& after.listing_dirty == before.listing_dirty
            &&& after.sort_col == before.sort_col
            &&& after.sort_asc == before.sort_asc
            &&& after.view_mode == before.view_mode
            &&& after.locked == before.locked
            &&& after.custom_name == before.custom_name
            &&& after.kind == before.kind
            &&& after.file_target == before.file_target
            &&& after.col_widths == before.col_widths
        },
        ListingReply::Failed(e) => after == (Tab { listing_error: Some(e), ..before }),
    }
}

/// Takes in the answer of a listing of the folder that the tab shows.
fn take_reply(t: &mut Tab, reply: ListingReply, show_hidden: bool)
    requires
        old(t).wf(),
    ensures
        final(t).wf(),
        listed(*final(t), *old(t), reply, show_hidden),
{
    match reply {
        ListingReply::Pending => {},
        ListingReply::Listed(entries) => {
            let shown = without_hidden(entries, show_hidden);
            t.set_listing(shown);
        },
        ListingReply::Failed(e) => {
            t.listing_error = Some(e);
        },
    }
}

/// The tab once the answer has been taken in: the answer counts only where a
/// listing of the folder that the tab shows was running.
pub open spec fn after_reply(
    mid: Tab,
    before: Tab,
    job: ListingJob,
    reply: ListingReply,
    show_hidden: bool,
) -> bool {
    match job.dir {
        Some(d) => if path::same_path(d@, before.path@) {
            listed(mid, before, reply, show_hidden)
        } else {
            mid == before
        },
        None => mid == before,
    }
}

/// The job once the answer has been taken in.
pub open spec fn job_after_reply(job: ListingJob, reply: ListingReply) -> Option<String> {
    if reply is Pending {
        job.dir
    } else {
        None
    }
}

/// What a frame does to the active tab of a pane and its background listing:
/// the reply is taken in, and once no listing runs, a tab that has to be read
/// again has one started.
pub open spec fn polled_listing(
    after: Tab,
    after_job: ListingJob,
    before: Tab,
    job: ListingJob,
    reply: ListingReply,
    show_hidden: bool,
    start: Option<String>,
) -> bool {
    exists|mid: Tab|
        {
            &&& #[trigger] after_reply(mid, before, job, reply, show_hidden)
            &&& ({
                let rest = job_after_reply(job, reply);
                if rest is None && mid.listing_dirty {
                    &&& after == (Tab { listing_dirty: false, ..mid })
                    &&& (start matches Some(d) && d@ == mid.path@)
                    &&& (after_job.dir matches Some(d) && d@ == mid.path@)
                } else {
                    &&& after == mid
                    &&& start is None
                    &&& after_job.dir == rest
                }
            })
        }
}

impl ListingJob {
    /// No listing is running.
    pub fn idle() -> (r: Self)
        ensures
            r.dir is None,
    {
        ListingJob { dir: None }
    }

    /// Whether a listing is running, so that its answer can be asked for.
    pub fn running(&self) -> (r: bool)
        ensures
            r == (self.dir is Some),
    {
        self.dir.is_some()
    }

    /// Polls the background listing for the tab `t`: takes in the answer of a
    /// listing that is over, discarding it if the tab navigated away, then
    /// starts a new listing where the tab needs one and none is running.
    /// Returns the folder that is to be listed.
    pub fn poll_listing(&mut self, t: &mut Tab, reply: ListingReply, show_hidden: bool) -> (r:
        Option<String>)
        requires
            old(t).wf(),
        ensures
            final(t).wf(),
            polled_listing(
                *final(t),
                *final(self),
                *old(t),
                *old(self),
                reply,
                show_hidden,
                r,
            ),
    {
        let done: bool = match &reply {
            ListingReply::Pending => false,
            _ => true,
        };
        let ours: bool = match &self.dir {
            Some(d) => is_same_path(d.as_str(), t.path.as_str()),
            None => false,
        };
        if ours {
            take_reply(t, reply, show_hidden);
        }
        if done {
            self.dir = None;
        }
        let ghost mid = *t;
        assert(after_reply(mid, *old(t), *old(self), reply, show_hidden));
        if self.dir.is_none() && t.listing_dirty {
            t.listing_dirty = false;
            self.dir = Some(t.path.clone());
            Some(t.path.clone())
        } else {
            None
        }
    }
}

/// The tabs of `before`, with those that show `dir` to be listed anew.
pub open spec fn marked(before: Seq<Tab>, dir: Seq<char>) -> Seq<Tab> {
    before.map_values(
        |t: Tab|
            if path::same_path(t.path@, dir) {
                Tab { listing_dirty: true, ..t }
            } else {
                t
            },
    )
}

/// The pane once the tabs that show `dir` are to be listed anew.
pub open spec fn marked_pane(after: Pane, before: Pane, dir: Seq<char>) -> bool {
    after.tabs@ == marked(before.tabs@, dir) && after.active_tab == before.active_tab
        && after.same_address(before)
}

/// Marks every tab of the pane that shows `dir` as needing a fresh listing.
pub fn mark_tabs_dirty(pane: &mut Pane, dir: &str)
    requires
        old(pane).wf(),
    ensures
        final(pane).wf(),
        marked_pane(*final(pane), *old(pane), dir@),
{
    let ghost before = pane.tabs@;
    let mut i: usize = 0;
    while i < pane.tabs.len()
        invariant
            i <= pane.tabs.len(),
            pane.wf(),
            pane.tabs@.len() == before.len(),
            pane.active_tab == old(pane).active_tab,
            pane.same_address(*old(pane)),
            before == old(pane).tabs@,
            forall|j: int| 0 <= j < i ==> #[trigger] pane.tabs@[j] == marked(before, dir@)[j],
            forall|j: int| i <= j < before.len() ==> #[trigger] pane.tabs@[j] == before[j],
        decreases pane.tabs.len() - i,
    {
        if is_same_path(pane.tabs[i].path.as_str(), dir) {
            pane.tabs[i].listing_dirty = true;
        }
        i = i + 1;
    }
    assert(pane.tabs@ =~= marked(before, dir@));
}

/// The tabs of `before`, all to be listed anew.
pub open spec fn all_marked(before: Seq<Tab>) -> Seq<Tab> {
    before.map_values(|t: Tab| Tab { listing_dirty: true, ..t })
}

/// Marks every tab of the pane as needing a fresh listing.
pub fn mark_all_tabs(pane: &mut Pane)
    requires
        old(pane).wf(),
    ensures
        final(pane).wf(),
        final(pane).tabs@ == all_marked(old(pane).tabs@),
        final(pane).active_tab == old(pane).active_tab,
        final(pane).same_address(*old(pane)),
{
    let ghost before = pane.tabs@;
    let mut i: usize = 0;
    while i < pane.tabs.len()
        invariant
            i <= pane.tabs.len(),
            pane.wf(),
            pane.tabs@.len() == before.len(),
            pane.active_tab == old(pane).active_tab,
            pane.same_address(*old(pane)),
            before == old(pane).tabs@,
            forall|j: int| 0 <= j < i ==> #[trigger] pane.tabs@[j] == all_marked(before)[j],
            forall|j: int| i <= j < before.len() ==> #[trigger] pane.tabs@[j] == before[j],
        decreases pane.tabs.len() - i,
    {
        pane.tabs[i].listing_dirty = true;
        i = i + 1;
    }
    assert(pane.tabs@ =~= all_marked(before));
}

/// Hidden entries never show unless they are asked for.
pub proof fn law_hidden_entries_stay_hidden(entries: Seq<FsEntry>)
    ensures
        forall|i: int|
            0 <= i < unhidden(entries).len() ==> !(#[trigger] unhidden(entries)[i]).hidden,
    decreases entries.len(),
{
    if entries.len() > 0 {
        law_hidden_entries_stay_hidden(entries.drop_last());
        let before = unhidden(entries.drop_last());
        let all = unhidden(entries);
        assert forall|i: int| 0 <= i < all.len() implies !(#[trigger] all[i]).hidden by {
            if i < before.len() {
                assert(all[i] == before[i]);
            }
        }
    }
}

proof fn lemma_unhidden(entries: Seq<FsEntry>)
    ensures
        unhidden(entries) == entries.filter(|e: FsEntry| !e.hidden),
    decreases entries.len(),
{
    reveal(Seq::filter);
    if entries.len() > 0 {
        lemma_unhidden(entries.drop_last());
    }
}

/// Every entry that is not hidden is shown, whatever else it is, and no other:
/// they keep their order, and each is there as often as it was.
pub proof fn law_all_but_hidden_entries_are_shown(entries: Vec<FsEntry>, r: Vec<FsEntry>)
    requires
        call_ensures(without_hidden, (entries, false), r),
    ensures
        forall|e: FsEntry| #[trigger] r@.contains(e) <==> entries@.contains(e) && !e.hidden,
        r@ == entries@.filter(|e: FsEntry| !e.hidden),
{
    let p = |e: FsEntry| !e.hidden;
    lemma_unhidden(entries@);
    assert forall|e: FsEntry| #[trigger]
        r@.contains(e) <==> entries@.contains(e) && !e.hidden by {
        if r@.contains(e) {
            let i = choose|i: int| 0 <= i < r@.len() && r@[i] == e;
            entries@.lemma_filter_pred(p, i);
            entries@.lemma_filter_contains_rev(p, e);
        }
        if entries@.contains(e) && !e.hidden {
            let i = choose|i: int| 0 <= i < entries@.len() && entries@[i] == e;
            entries@.lemma_filter_contains(p, i);
        }
    }
}

/// On request every entry is shown.
pub proof fn law_hidden_entries_show_on_request(entries: Vec<FsEntry>, r: Vec<FsEntry>)
    requires
        call_ensures(without_hidden, (entries, true), r),
    ensures
        r@ == entries@,
{
}

/// A tab shows what was listed of its folder, hidden entries only on request,
/// and forgets an earlier error. What was listed of another folder, or not at
/// all, leaves the listing as it was.
pub proof fn law_a_tab_shows_its_folder()
    ensures
        forall|
            job: &mut ListingJob,
            t: &mut Tab,
            dir: String,
            entries: Vec<FsEntry>,
            show_hidden: bool,
            r: Option<String>,
        |
            #[trigger] call_ensures(
                ListingJob::poll_listing,
                (job, t, ListingReply::Listed(entries), show_hidden),
                r,
            ) && job.dir == Some(dir) && #[trigger] path::same_path(dir@, t.path@) ==> {
                &&& final(t).listing@ == (if show_hidden {
                    entries@
                } else {
                    entries@.filter(|e: FsEntry| !e.hidden)
                })
                &&& final(t).listing_error is None
            },
        forall|
            job: &mut ListingJob,
            t: &mut Tab,
            dir: String,
            entries: Vec<FsEntry>,
            show_hidden: bool,
            r: Option<String>,
        |
            #[trigger] call_ensures(
                ListingJob::poll_listing,
                (job, t, ListingReply::Listed(entries), show_hidden),
                r,
            ) && job.dir == Some(dir) && !(#[trigger] path::same_path(dir@, t.path@))
                ==> final(t).listing == t.listing && final(t).listing_error == t.listing_error,
        forall|
            job: &mut ListingJob,
            t: &mut Tab,
            error: String,
            show_hidden: bool,
            r: Option<String>,
        |
            #[trigger] call_ensures(
                ListingJob::poll_listing,
                (job, t, ListingReply::Failed(error), show_hidden),
                r,
            ) ==> final(t).listing == t.listing,
        forall|job: &mut ListingJob, t: &mut Tab, show_hidden: bool, r: Option<String>|
            #[trigger] call_ensures(
                ListingJob::poll_listing,
                (job, t, ListingReply::Pending, show_hidden),
                r,
            ) ==> final(t).listing == t.listing && final(t).listing_error == t.listing_error,
{
    assert forall|s: Seq<FsEntry>| #[trigger]
        unhidden(s) == s.filter(|e: FsEntry| !e.hidden) by {
        lemma_unhidden(s);
    }
}

/// A listing is asked for exactly where the tab has to be listed anew and none
/// is running, and it is one of the folder that the tab shows.
pub proof fn law_a_stale_tab_is_listed()
    ensures
        forall|
            job: &mut ListingJob,
            t: &mut Tab,
            reply: ListingReply,
            show_hidden: bool,
            r: Option<String>,
        |
            #[trigger] call_ensures(ListingJob::poll_listing, (job, t, reply, show_hidden), r)
                ==> {
                &&& r is Some <==> t.listing_dirty && (reply !is Pending || job.dir is None)
                &&& r is Some ==> r->0@ == t.path@ && final(job).dir is Some
                    && final(job).dir->0@ == t.path@
                &&& r is Some ==> !final(t).listing_dirty
                &&& final(t).path@ == t.path@
            },
{
}

/// Marking the tabs of a folder marks every tab that shows it, keeps the marks
/// of the others, and changes nothing else.
pub proof fn law_marking_reaches_every_tab_of_a_folder()
    ensures
        forall|pane: &mut Pane, dir: &str, i: int|
            #![trigger call_ensures(mark_tabs_dirty, (pane, dir), ()), final(pane).tabs@[i]]
            call_ensures(mark_tabs_dirty, (pane, dir), ()) && 0 <= i < pane.tabs@.len() ==> {
                &&& final(pane).tabs@.len() == pane.tabs@.len()
                &&& final(pane).tabs@[i] == (Tab {
                    listing_dirty: pane.tabs@[i].listing_dirty || path::same_path(
                        pane.tabs@[i].path@,
                        dir@,
                    ),
                    ..pane.tabs@[i]
                })
            },
        forall|pane: &mut Pane, i: int|
            #![trigger call_ensures(mark_all_tabs, (pane,), ()), final(pane).tabs@[i]]
            call_ensures(mark_all_tabs, (pane,), ()) && 0 <= i < pane.tabs@.len() ==> {
                &&& final(pane).tabs@.len() == pane.tabs@.len()
                &&& final(pane).tabs@[i] == (Tab { listing_dirty: true, ..pane.tabs@[i] })
            },
{
}

} // verus!
