//! Filtering a listing by name, and the walk that searches a folder and
//! everything under it.

use crate::fs_entry::FsEntry;
use crate::text::{contains, to_lowercase};
use crate::text;
use vstd::prelude::*;

verus! {

/// The name of `e` holds `query`, whatever the case of either.
pub open spec fn name_matches(e: FsEntry, query: Seq<char>) -> bool {
    text::occurs(text::lowercase(e.name@), text::lowercase(query))
}

/// The entries of `s` whose name holds `query`, in their order.
pub open spec fn matching(s: Seq<FsEntry>, query: Seq<char>) -> Seq<FsEntry>
    decreases s.len(),
{
    if s.len() == 0 {
        s
    } else if name_matches(s.last(), query) {
        matching(s.drop_last(), query).push(s.last())
    } else {
        matching(s.drop_last(), query)
    }
}

/// What a filter leaves of a listing; the empty filter leaves everything.
pub open spec fn filtered(s: Seq<FsEntry>, query: Seq<char>) -> Seq<FsEntry> {
    if query.len() == 0 {
        s
    } else {
        matching(s, query)
    }
}

/// Whether the name of `e` holds `lowered`, which is the query in lower case.
fn holds(e: &FsEntry, lowered: &String, Ghost(query): Ghost<Seq<char>>) -> (r: bool)
    requires
        lowered@ == text::lowercase(query),
    ensures
        r == name_matches(*e, query),
{
    contains(to_lowercase(e.name.as_str()).as_str(), lowered.as_str())
}

/// Filters entries in place by a substring match on the name, whatever its
/// case. Applies to both files and folders alike.
pub fn filter_entries(entries: &mut Vec<FsEntry>, query: &str)
    ensures
        final(entries)@ == filtered(old(entries)@, query@),
{
    if query.is_empty() {
        return;
    }
    let q = to_lowercase(query);
    let mut taken: Vec<FsEntry> = Vec::new();
    std::mem::swap(entries, &mut taken);
    let ghost all = taken@;
    let mut kept: Vec<FsEntry> = Vec::new();
    for e in it: taken
        invariant
            it.seq() == all,
            q@ == text::lowercase(query@),
            kept@ == matching(all.subrange(0, it.index() as int), query@),
    {
        let ghost i = it.index() as int;
        assert(all.subrange(0, i + 1).drop_last() =~= all.subrange(0, i));
        if holds(&e, &q, Ghost(query@)) {
            kept.push(e);
        }
    }
    assert(all.subrange(0, all.len() as int) =~= all);
    *entries = kept;
}

/// A filter leaves exactly the entries that match it, and no new ones.
pub proof fn law_filter_keeps_what_matches(s: Seq<FsEntry>, query: Seq<char>)
    requires
        query.len() > 0,
    ensures
        forall|e: FsEntry| #[trigger]
            filtered(s, query).contains(e) <==> s.contains(e) && name_matches(e, query),
    decreases s.len(),
{
    if s.len() > 0 {
        let s1 = s.drop_last();
        law_filter_keeps_what_matches(s1, query);
        let m1 = matching(s1, query);
        let m = matching(s, query);
        assert(m1 == filtered(s1, query));
        assert forall|e: FsEntry| #[trigger]
            m.contains(e) <==> s.contains(e) && name_matches(e, query) by {
            if m.contains(e) {
                let i = choose|i: int| 0 <= i < m.len() && m[i] == e;
                if i < m1.len() {
                    assert(m1[i] == e);
                    assert(m1.contains(e));
                    let j = choose|j: int| 0 <= j < s1.len() && s1[j] == e;
                    assert(s[j] == e);
                } else {
                    assert(s[s.len() - 1] == e);
                }
            }
            if s.contains(e) && name_matches(e, query) {
                let j = choose|j: int| 0 <= j < s.len() && s[j] == e;
                if j < s1.len() {
                    assert(s1[j] == e);
                    assert(m1.contains(e));
                    let i = choose|i: int| 0 <= i < m1.len() && m1[i] == e;
                    assert(m[i] == e);
                } else {
                    assert(m[m.len() - 1] == e);
                }
            }
        }
    }
}

/// Filtering twice by the same text is filtering once.
pub proof fn law_filter_is_idempotent(s: Seq<FsEntry>, query: Seq<char>)
    ensures
        filtered(filtered(s, query), query) == filtered(s, query),
    decreases s.len(),
{
    if query.len() > 0 && s.len() > 0 {
        law_filter_is_idempotent(s.drop_last(), query);
        let m1 = matching(s.drop_last(), query);
        if name_matches(s.last(), query) {
            assert(m1.push(s.last()).drop_last() =~= m1);
        }
    }
}

/// Filtering leaves no more entries than there were.
pub proof fn law_filter_shrinks(s: Seq<FsEntry>, query: Seq<char>)
    ensures
        filtered(s, query).len() <= s.len(),
    decreases s.len(),
{
    if query.len() > 0 && s.len() > 0 {
        law_filter_shrinks(s.drop_last(), query);
    }
}

// ---------------------------------------------------------------------------
// The search of a folder and everything under it
// ---------------------------------------------------------------------------

/// A search on its way through the folders: the entries that it still has to
/// look at.
pub struct SearchWalk {
    query: String,
    lowered: String,
    /// The entries to look at, the next one last.
    stack: Vec<FsEntry>,
}

/// What a search does with one entry.
#[derive(Debug, PartialEq)]
pub struct WalkStep {
    pub entry: FsEntry,
    /// The entry is a hit.
    pub report: bool,
    /// The folder is to be listed and its listing handed to `enter`.
    pub descend: bool,
}

impl SearchWalk {
    /// What the search looks for.
    pub closed spec fn query(self) -> Seq<char> {
        self.query@
    }

    /// The entries that the search still has to look at, in its order.
    pub closed spec fn todo(self) -> Seq<FsEntry> {
        self.stack@.reverse()
    }

    pub closed spec fn wf(self) -> bool {
        self.lowered@ == text::lowercase(self.query@)
    }

    /// Hands the walk the listing of the folder it asked for; the listing of
    /// the folder to search comes first. An unreadable folder has an empty
    /// listing.
    pub fn enter(&mut self, listing: Vec<FsEntry>)
        requires
            old(self).wf(),
        ensures
            final(self).wf(),
            final(self).query() == old(self).query(),
            final(self).todo() == listing@ + old(self).todo(),
    {
        let ghost before = self.stack@;
        let mut rest = listing;
        while rest.len() > 0
            invariant
                self.wf(),
                self.query() == old(self).query(),
                rest@ + self.stack@.reverse() == listing@ + before.reverse(),
            decreases rest@.len(),
        {
            let ghost r0 = rest@;
            let ghost s0 = self.stack@;
            match rest.pop() {
                Some(e) => {
                    self.stack.push(e);
                    assert(self.stack@.reverse() =~= seq![e] + s0.reverse());
                    assert(r0 =~= rest@.push(e));
                    assert(rest@ + (seq![e] + s0.reverse()) =~= r0 + s0.reverse());
                },
                None => {},
            }
        }
        assert(rest@ + self.stack@.reverse() =~= self.stack@.reverse());
    }
}

/// Starts a search for `query`. The walk first takes the listing of the
/// folder to search.
pub fn recursive_search(query: String) -> (r: SearchWalk)
    ensures
        r.wf(),
        r.query() == query@,
        r.todo() == Seq::<FsEntry>::empty(),
{
    let lowered = to_lowercase(query.as_str());
    let r = SearchWalk { query, lowered, stack: Vec::new() };
    assert(r.stack@.reverse() =~= Seq::<FsEntry>::empty());
    r
}

/// Looks at the next entry: it is a hit where its name matches, and a folder
/// is entered before the entries that follow it.
pub fn walk_recursive(walk: &mut SearchWalk) -> (r: Option<WalkStep>)
    requires
        old(walk).wf(),
    ensures
        final(walk).wf(),
        final(walk).query() == old(walk).query(),
        match r {
            None => old(walk).todo().len() == 0 && final(walk).todo() == old(walk).todo(),
            Some(step) => {
                &&& old(walk).todo().len() > 0
                &&& step.entry == old(walk).todo()[0]
                &&& step.report == name_matches(step.entry, old(walk).query())
                &&& step.descend == step.entry.is_dir
                &&& final(walk).todo() == old(walk).todo().subrange(
                    1,
                    old(walk).todo().len() as int,
                )
            },
        },
{
    let ghost before = walk.stack@;
    match walk.stack.pop() {
        None => None,
        Some(entry) => {
            proof {
                assert(before.reverse()[0] == entry);
                assert(walk.stack@.reverse() =~= before.reverse().subrange(
                    1,
                    before.len() as int,
                ));
            }
            let report = holds(&entry, &walk.lowered, Ghost(walk.query@));
            let descend = entry.is_dir;
            Some(WalkStep { entry, report, descend })
        },
    }
}

/// The folders of a file system that lie under the entries `todo`, at most
/// `depth` deep, as `listing` gives them: what a search for `query` reports,
/// in its order.
pub open spec fn hits(
    todo: Seq<FsEntry>,
    query: Seq<char>,
    listing: spec_fn(Seq<char>) -> Seq<FsEntry>,
    depth: nat,
) -> Seq<FsEntry>
    decreases depth, todo.len(),
{
    if todo.len() == 0 {
        todo
    } else {
        let e = todo.last();
        let here = if name_matches(e, query) {
            seq![e]
        } else {
            Seq::<FsEntry>::empty()
        };
        let below = if e.is_dir && depth > 0 {
            hits(listing(e.path@), query, listing, (depth - 1) as nat)
        } else {
            Seq::<FsEntry>::empty()
        };
        hits(todo.drop_last(), query, listing, depth) + here + below
    }
}

/// The hits under one run of entries come before those under the next.
pub proof fn law_hits_follow_the_entries(
    a: Seq<FsEntry>,
    b: Seq<FsEntry>,
    query: Seq<char>,
    listing: spec_fn(Seq<char>) -> Seq<FsEntry>,
    depth: nat,
)
    ensures
        hits(a + b, query, listing, depth) == hits(a, query, listing, depth) + hits(
            b,
            query,
            listing,
            depth,
        ),
    decreases b.len(),
{
    if b.len() == 0 {
        assert(a + b =~= a);
        assert(hits(a, query, listing, depth) + b =~= hits(a, query, listing, depth));
    } else {
        law_hits_follow_the_entries(a, b.drop_last(), query, listing, depth);
        assert((a + b).drop_last() =~= a + b.drop_last());
        assert((a + b).last() == b.last());
        assert(hits(a + b, query, listing, depth) =~= hits(a, query, listing, depth) + hits(
            b,
            query,
            listing,
            depth,
        ));
    }
}

/// Every hit is an entry whose name matches.
pub proof fn law_hits_match(
    todo: Seq<FsEntry>,
    query: Seq<char>,
    listing: spec_fn(Seq<char>) -> Seq<FsEntry>,
    depth: nat,
)
    ensures
        forall|i: int|
            0 <= i < hits(todo, query, listing, depth).len() ==> name_matches(
                #[trigger] hits(todo, query, listing, depth)[i],
                query,
            ),
    decreases depth, todo.len(),
{
    if todo.len() > 0 {
        let e = todo.last();
        law_hits_match(todo.drop_last(), query, listing, depth);
        if e.is_dir && depth > 0 {
            law_hits_match(listing(e.path@), query, listing, (depth - 1) as nat);
        }
        let before = hits(todo.drop_last(), query, listing, depth);
        let below = if e.is_dir && depth > 0 {
            hits(listing(e.path@), query, listing, (depth - 1) as nat)
        } else {
            Seq::<FsEntry>::empty()
        };
        let all = hits(todo, query, listing, depth);
        assert forall|i: int| 0 <= i < all.len() implies name_matches(#[trigger] all[i], query) by {
            if i < before.len() {
                assert(all[i] == before[i]);
            } else if i >= all.len() - below.len() {
                assert(all[i] == below[i - (all.len() - below.len())]);
            } else {
                assert(all[i] == e);
            }
        }
    }
}

/// What a search reports of the next entry: the entry itself where its name
/// matches, then what lies under it, then what follows it.
pub proof fn law_a_folder_is_searched_before_what_follows_it(
    todo: Seq<FsEntry>,
    query: Seq<char>,
    listing: spec_fn(Seq<char>) -> Seq<FsEntry>,
    depth: nat,
)
    requires
        todo.len() > 0,
        depth > 0,
    ensures
        hits(todo, query, listing, depth) == (if name_matches(todo[0], query) {
            seq![todo[0]]
        } else {
            Seq::<FsEntry>::empty()
        }) + (if todo[0].is_dir {
            hits(listing(todo[0].path@), query, listing, (depth - 1) as nat)
        } else {
            Seq::<FsEntry>::empty()
        }) + hits(todo.subrange(1, todo.len() as int), query, listing, depth),
{
    let first = seq![todo[0]];
    let rest = todo.subrange(1, todo.len() as int);
    assert(todo =~= first + rest);
    law_hits_follow_the_entries(first, rest, query, listing, depth);
    assert(first.drop_last() =~= Seq::<FsEntry>::empty());
    let here = if name_matches(todo[0], query) {
        first
    } else {
        Seq::<FsEntry>::empty()
    };
    let below = if todo[0].is_dir {
        hits(listing(todo[0].path@), query, listing, (depth - 1) as nat)
    } else {
        Seq::<FsEntry>::empty()
    };
    assert(hits(first.drop_last(), query, listing, depth) =~= Seq::<FsEntry>::empty());
    assert(first.last() == todo[0]);
    assert(hits(first, query, listing, depth) =~= here + below);
}

/// Whether the name of an entry matches depends on the name alone: there is a
/// place in it, in lower case, at which the query stands, in lower case.
pub proof fn law_the_name_alone_decides(e: FsEntry, query: Seq<char>)
    ensures
        name_matches(e, query) <==> exists|at: int|
            #![trigger text::lowercase(e.name@).subrange(at, at + text::lowercase(query).len())]
            0 <= at && at + text::lowercase(query).len() <= text::lowercase(e.name@).len()
                && text::lowercase(e.name@).subrange(at, at + text::lowercase(query).len())
                == text::lowercase(query),
{
    let hay = text::lowercase(e.name@);
    let needle = text::lowercase(query);
    if name_matches(e, query) {
        let at = choose|at: int| #[trigger] text::occurs_at(hay, needle, at);
        assert(hay.subrange(at, at + needle.len()) == needle);
    }
    if exists|at: int|
        #![trigger hay.subrange(at, at + needle.len())]
        0 <= at && at + needle.len() <= hay.len() && hay.subrange(at, at + needle.len())
            == needle {
        let at = choose|at: int|
            #![trigger hay.subrange(at, at + needle.len())]
            0 <= at && at + needle.len() <= hay.len() && hay.subrange(at, at + needle.len())
                == needle;
        assert(text::occurs_at(hay, needle, at));
    }
}

proof fn lemma_matching(s: Seq<FsEntry>, query: Seq<char>)
    ensures
        matching(s, query) == s.filter(|e: FsEntry| name_matches(e, query)),
    decreases s.len(),
{
    reveal(Seq::filter);
    if s.len() > 0 {
        lemma_matching(s.drop_last(), query);
    }
}

/// A filter keeps an entry exactly where the query stands at some place in its
/// name, both in lower case. What it keeps stays in its order, each entry as
/// often as it was there. The empty query keeps everything.
pub proof fn law_filter_goes_by_the_name()
    ensures
        forall|entries: &mut Vec<FsEntry>, query: &str| #[trigger]
            call_ensures(filter_entries, (entries, query), ()) && query@.len() > 0 
                ==> final(entries)@ == entries@.filter(
                |e: FsEntry|
                    exists|at: int|
                        #![trigger text::lowercase(e.name@).subrange(
                            at,
                            at + text::lowercase(query@).len(),
                        )]
                        0 <= at && at + text::lowercase(query@).len() <= text::lowercase(
                            e.name@,
                        ).len() && text::lowercase(e.name@).subrange(
                            at,
                            at + text::lowercase(query@).len(),
                        ) == text::lowercase(query@),
            ),
        forall|entries: &mut Vec<FsEntry>, query: &str| #[trigger]
            call_ensures(filter_entries, (entries, query), ()) && query@.len() == 0 
                ==> final(entries)@ == entries@,
{
    assert forall|s: Seq<FsEntry>, q: Seq<char>| #[trigger]
        matching(s, q) == s.filter(
            |e: FsEntry|
                exists|at: int|
                    #![trigger text::lowercase(e.name@).subrange(
                        at,
                        at + text::lowercase(q).len(),
                    )]
                    0 <= at && at + text::lowercase(q).len() <= text::lowercase(e.name@).len()
                        && text::lowercase(e.name@).subrange(at, at + text::lowercase(q).len())
                        == text::lowercase(q),
        ) by {
        lemma_matching(s, q);
        assert forall|e: FsEntry| #[trigger] name_matches(e, q) == exists|at: int|
            #![trigger text::lowercase(e.name@).subrange(at, at + text::lowercase(q).len())]
            0 <= at && at + text::lowercase(q).len() <= text::lowercase(e.name@).len()
                && text::lowercase(e.name@).subrange(at, at + text::lowercase(q).len())
                == text::lowercase(q) by {
            law_the_name_alone_decides(e, q);
        }
        assert((|e: FsEntry| name_matches(e, q)) =~= (|e: FsEntry|
            exists|at: int|
                #![trigger text::lowercase(e.name@).subrange(at, at + text::lowercase(q).len())]
                0 <= at && at + text::lowercase(q).len() <= text::lowercase(e.name@).len()
                    && text::lowercase(e.name@).subrange(at, at + text::lowercase(q).len())
                    == text::lowercase(q)));
    }
}

/// A search looks at every entry that it was handed, in order: those of a folder
/// that was entered come first, and none is passed over. It reports an entry
/// exactly where the query stands at some place in its name, both in lower case,
/// and enters exactly the folders.
pub proof fn law_a_search_passes_over_nothing()
    ensures
        forall|walk: &mut SearchWalk, listing: Vec<FsEntry>| #[trigger]
            call_ensures(SearchWalk::enter, (walk, listing), ()) ==> final(walk).todo()
                == listing@ + walk.todo() && final(walk).query() == walk.query(),
        forall|walk: &mut SearchWalk, r: Option<WalkStep>| #[trigger]
            call_ensures(walk_recursive, (walk,), r) ==> (r is None <==> walk.todo().len() == 0),
        forall|walk: &mut SearchWalk, r: Option<WalkStep>| #[trigger]
            call_ensures(walk_recursive, (walk,), r) && r is Some ==> {
                &&& walk.todo() == seq![r->0.entry] + final(walk).todo()
                &&& final(walk).query() == walk.query()
                &&& r->0.descend <==> r->0.entry.is_dir
                &&& r->0.report <==> exists|at: int|
                    #![trigger text::lowercase(r->0.entry.name@).subrange(
                        at,
                        at + text::lowercase(walk.query()).len(),
                    )]
                    0 <= at && at + text::lowercase(walk.query()).len() <= text::lowercase(
                        r->0.entry.name@,
                    ).len() && text::lowercase(r->0.entry.name@).subrange(
                        at,
                        at + text::lowercase(walk.query()).len(),
                    ) == text::lowercase(walk.query())
            },
{
    assert forall|walk: &mut SearchWalk, r: Option<WalkStep>| #[trigger]
        call_ensures(walk_recursive, (walk,), r) && r is Some implies {
        &&& walk.todo() == seq![r->0.entry] + final(walk).todo()
        &&& final(walk).query() == walk.query()
        &&& r->0.descend <==> r->0.entry.is_dir
        &&& r->0.report <==> exists|at: int|
            #![trigger text::lowercase(r->0.entry.name@).subrange(
                at,
                at + text::lowercase(walk.query()).len(),
            )]
            0 <= at && at + text::lowercase(walk.query()).len() <= text::lowercase(
                r->0.entry.name@,
            ).len() && text::lowercase(r->0.entry.name@).subrange(
                at,
                at + text::lowercase(walk.query()).len(),
            ) == text::lowercase(walk.query())
    } by {
        law_the_name_alone_decides(r->0.entry, walk.query());
        assert(walk.todo() =~= seq![r->0.entry] + final(walk).todo());
    }
}

/// A search reports an entry exactly as often as there are matching names on
/// its way: every entry that it meets and that matches is a hit.
pub proof fn law_every_match_is_a_hit(
    todo: Seq<FsEntry>,
    query: Seq<char>,
    listing: spec_fn(Seq<char>) -> Seq<FsEntry>,
    depth: nat,
    i: int,
)
    requires
        0 <= i < todo.len(),
    ensures
        name_matches(todo[i], query) ==> hits(todo, query, listing, depth).contains(todo[i]),
        todo[i].is_dir && depth > 0 ==> forall|e: FsEntry| #[trigger]
            hits(listing(todo[i].path@), query, listing, (depth - 1) as nat).contains(e)
                ==> hits(todo, query, listing, depth).contains(e),
{
    let a = todo.subrange(0, i);
    let one = seq![todo[i]];
    let b = todo.subrange(i + 1, todo.len() as int);
    assert(todo =~= a + one + b);
    law_hits_follow_the_entries(a + one, b, query, listing, depth);
    law_hits_follow_the_entries(a, one, query, listing, depth);
    assert(one.drop_last() =~= Seq::<FsEntry>::empty());
    assert(one.last() == todo[i]);
    let ha = hits(a, query, listing, depth);
    let h1 = hits(one, query, listing, depth);
    let hb = hits(b, query, listing, depth);
    let all = hits(todo, query, listing, depth);
    assert(all == ha + h1 + hb);
    assert(hits(one.drop_last(), query, listing, depth) =~= Seq::<FsEntry>::empty());
    let here = if name_matches(todo[i], query) {
        one
    } else {
        Seq::<FsEntry>::empty()
    };
    let below = if todo[i].is_dir && depth > 0 {
        hits(listing(todo[i].path@), query, listing, (depth - 1) as nat)
    } else {
        Seq::<FsEntry>::empty()
    };
    assert(h1 =~= here + below);
    if name_matches(todo[i], query) {
        assert(all[ha.len() as int] == todo[i]);
    }
    assert forall|e: FsEntry| #[trigger] below.contains(e) implies all.contains(e) by {
        let k = choose|k: int| 0 <= k < below.len() && below[k] == e;
        assert(all[ha.len() + here.len() + k] == e);
    }
}

} // verus!
