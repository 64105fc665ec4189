//! The dialog that searches a folder and everything under it.

use crate::fs_entry::{sort_entries, FsEntry};
use crate::path::parent;
use crate::prefs::next_sort;
use crate::sort::merge_sort;
use crate::text::{chars_of, contains, str_eq, str_lt, to_lowercase, usize_to_string};
use crate::{fs_entry, path, prefs, sort, text};
use vstd::prelude::*;

verus! {

/// The state of the dialog. Results keep their full metadata so the results
/// table can display and sort by name, folder, date and size. The filters
/// narrow the displayed list without discarding hits.
#[derive(Debug, PartialEq)]
pub struct FindDialog {
    pub query: String,
    pub results: Vec<FsEntry>,
    pub search_path: String,
    pub sort_col: String,
    pub sort_asc: bool,
    pub name_filter: String,
    pub folder_filter: String,
    /// Folders appear among the results.
    pub include_folders: bool,
    /// The input has been given initial focus.
    pub query_focused: bool,
}

/// The folder that an entry lies in, in lower case.
pub open spec fn folder_key(e: FsEntry) -> Seq<char> {
    match path::parent_of(e.path@) {
        Some(up) => text::lowercase(up),
        None => Seq::empty(),
    }
}

/// `a` comes before `b` in the order of their folders, and of their names
/// within one folder.
pub open spec fn folder_lt(a: FsEntry, b: FsEntry) -> bool {
    text::text_lt(folder_key(a), folder_key(b)) || (folder_key(a) == folder_key(b)
        && text::text_lt(text::lowercase(a.name@), text::lowercase(b.name@)))
}

/// The order of results that are sorted by folder.
pub open spec fn folder_order(asc: bool) -> spec_fn(FsEntry, FsEntry) -> bool {
    |a: FsEntry, b: FsEntry|
        if asc {
            folder_lt(a, b)
        } else {
            folder_lt(b, a)
        }
}

/// Results sorted by `col`.
pub open spec fn sorted_results(s: Seq<FsEntry>, col: Seq<char>, asc: bool) -> Seq<FsEntry> {
    if col == "folder"@ {
        sort::sorted(s, folder_order(asc))
    } else {
        fs_entry::sorted_entries(s, col, asc)
    }
}

proof fn lemma_folder_order(asc: bool)
    ensures
        sort::strict_weak_order(folder_order(asc)),
{
    let lt = folder_order(asc);
    assert forall|a: FsEntry| !#[trigger] lt(a, a) by {
        lemma_folder_lt(a, a, a);
    }
    assert forall|a: FsEntry, b: FsEntry, c: FsEntry| #[trigger]
        lt(a, b) && #[trigger] lt(b, c) implies lt(a, c) by {
        lemma_folder_lt(a, b, c);
        lemma_folder_lt(c, b, a);
    }
    assert forall|a: FsEntry, b: FsEntry, c: FsEntry|
        !#[trigger] lt(a, b) && !#[trigger] lt(b, c) implies !lt(a, c) by {
        lemma_folder_lt(a, b, c);
        lemma_folder_lt(c, b, a);
    }
}

proof fn lemma_folder_lt(a: FsEntry, b: FsEntry, c: FsEntry)
    ensures
        !folder_lt(a, a),
        folder_lt(a, b) && folder_lt(b, c) ==> folder_lt(a, c),
        !folder_lt(a, b) && !folder_lt(b, c) ==> !folder_lt(a, c),
{
    let (fa, fb, fc) = (folder_key(a), folder_key(b), folder_key(c));
    let (na, nb, nc) = (
        text::lowercase(a.name@),
        text::lowercase(b.name@),
        text::lowercase(c.name@),
    );
    fs_entry::lemma_text_order(fa, fb, fc);
    fs_entry::lemma_text_order(na, nb, nc);
    text::lemma_text_lt_total(fa, fb);
    text::lemma_text_lt_total(fb, fc);
    if text::text_lt(fb, fa) && text::text_lt(fa, fb) {
        text::lemma_text_lt_transitive(fb, fa, fb);
        text::lemma_text_lt_irreflexive(fb);
    }
    if text::text_lt(fb, fc) && text::text_lt(fc, fb) {
        text::lemma_text_lt_transitive(fb, fc, fb);
        text::lemma_text_lt_irreflexive(fb);
    }
    fs_entry::lemma_text_order(fc, fb, fa);
    if !folder_lt(a, b) && !folder_lt(b, c) && folder_lt(a, c) {
        if fa == fb && fb == fc {
        } else if text::text_lt(fb, fa) {
            if text::text_lt(fc, fb) {
                text::lemma_text_lt_transitive(fc, fb, fa);
            }
            text::lemma_text_lt_irreflexive(fa);
            if text::text_lt(fa, fc) {
                text::lemma_text_lt_transitive(fb, fa, fc);
            }
        } else {
            text::lemma_text_lt_irreflexive(fb);
        }
    }
}

fn folder_chars(e: &FsEntry) -> (r: Vec<char>)
    ensures
        r@ == folder_key(*e),
{
    match parent(e.path.as_str()) {
        Some(up) => chars_of(to_lowercase(up.as_str()).as_str()),
        None => {
            let none: Vec<char> = Vec::new();
            none
        },
    }
}

fn is_folder_lt(a: &FsEntry, b: &FsEntry) -> (r: bool)
    ensures
        r == folder_lt(*a, *b),
{
    let fa = folder_chars(a);
    let fb = folder_chars(b);
    if str_lt(&fa, &fb) {
        return true;
    }
    if !text::vec_eq(&fa, &fb) {
        return false;
    }
    let na: Vec<char> = chars_of(to_lowercase(a.name.as_str()).as_str());
    let nb: Vec<char> = chars_of(to_lowercase(b.name.as_str()).as_str());
    str_lt(&na, &nb)
}

/// `e` is shown under the filters.
pub open spec fn passes(
    e: FsEntry,
    name_filter: Seq<char>,
    folder_filter: Seq<char>,
    include_folders: bool,
) -> bool {
    let nf = text::lowercase(name_filter);
    let ff = text::lowercase(folder_filter);
    &&& include_folders || !e.is_dir
    &&& nf.len() == 0 || text::occurs(text::lowercase(e.name@), nf)
    &&& ff.len() == 0 || (path::parent_of(e.path@) matches Some(up) && text::occurs(
        text::lowercase(up),
        ff,
    ))
}

/// The results that are shown under the filters, in order.
pub open spec fn visible(
    results: Seq<FsEntry>,
    name_filter: Seq<char>,
    folder_filter: Seq<char>,
    include_folders: bool,
) -> Seq<FsEntry>
    decreases results.len(),
{
    if results.len() == 0 {
        results
    } else {
        let before = visible(results.drop_last(), name_filter, folder_filter, include_folders);
        if passes(results.last(), name_filter, folder_filter, include_folders) {
            before.push(results.last())
        } else {
            before
        }
    }
}

fn is_empty_text(s: &str) -> (r: bool)
    ensures
        r == (s@.len() == 0),
{
    let cs: Vec<char> = chars_of(s);
    cs.len() == 0
}

impl FindDialog {
    /// A dialog that searches under `search_path`, before the first search.
    pub fn new(search_path: String) -> (r: Self)
        ensures
            r.is_new(search_path@),
            r.search_path == search_path,
    {
        FindDialog {
            query: "".to_owned(),
            results: Vec::new(),
            search_path,
            sort_col: "name".to_owned(),
            sort_asc: true,
            name_filter: "".to_owned(),
            folder_filter: "".to_owned(),
            include_folders: true,
            query_focused: false,
        }
    }

    /// The dialog searches under `p` and has not found anything yet.
    pub open spec fn is_new(self, p: Seq<char>) -> bool {
        &&& self.search_path@ == p
        &&& self.query@ == ""@
        &&& self.results@.len() == 0
        &&& self.sort_col@ == "name"@
        &&& self.sort_asc
        &&& self.name_filter@ == ""@
        &&& self.folder_filter@ == ""@
        &&& self.include_folders
        &&& !self.query_focused
    }

    /// The results that are shown.
    pub open spec fn shown(self) -> Seq<FsEntry> {
        visible(self.results@, self.name_filter@, self.folder_filter@, self.include_folders)
    }

    /// Some filter narrows what is shown.
    pub open spec fn filtered(self) -> bool {
        ||| text::lowercase(self.name_filter@).len() > 0
        ||| text::lowercase(self.folder_filter@).len() > 0
        ||| !self.include_folders
    }

    /// Brings the results into the chosen order.
    pub fn sort_results(&mut self)
        ensures
            final(self).results@ == sorted_results(
                old(self).results@,
                old(self).sort_col@,
                old(self).sort_asc,
            ),
            *final(self) == (FindDialog { results: final(self).results, ..*old(self) }),
    {
        if str_eq(self.sort_col.as_str(), "folder") {
            let mut taken: Vec<FsEntry> = Vec::new();
            std::mem::swap(&mut self.results, &mut taken);
            let asc: bool = self.sort_asc;
            proof {
                lemma_folder_order(asc);
            }
            let less = |a: &FsEntry, b: &FsEntry| -> (r: bool)
                ensures
                    r == folder_order(asc)(*a, *b),
                {
                    if asc {
                        is_folder_lt(a, b)
                    } else {
                        is_folder_lt(b, a)
                    }
                };
            self.results = merge_sort(taken, &less, Ghost(folder_order(asc)));
        } else {
            let col = self.sort_col.clone();
            sort_entries(&mut self.results, col.as_str(), self.sort_asc);
        }
    }

    fn is_shown(&self, e: &FsEntry, nf: &str, ff: &str) -> (r: bool)
        requires
            nf@ == text::lowercase(self.name_filter@),
            ff@ == text::lowercase(self.folder_filter@),
        ensures
            r == passes(*e, self.name_filter@, self.folder_filter@, self.include_folders),
    {
        if e.is_dir && !self.include_folders {
            return false;
        }
        if !is_empty_text(nf) && !contains(to_lowercase(e.name.as_str()).as_str(), nf) {
            return false;
        }
        if is_empty_text(ff) {
            return true;
        }
        match parent(e.path.as_str()) {
            Some(up) => contains(to_lowercase(up.as_str()).as_str(), ff),
            None => false,
        }
    }

    /// The results that are shown: case-insensitive substring filters on the
    /// entry name and its parent folder, plus the folder toggle.
    pub fn view(&self) -> (r: Vec<FsEntry>)
        ensures
            r@ == self.shown(),
    {
        let nf = to_lowercase(self.name_filter.as_str());
        let ff = to_lowercase(self.folder_filter.as_str());
        let mut r: Vec<FsEntry> = Vec::new();
        let mut i: usize = 0;
        assert(self.results@.subrange(0, 0) =~= Seq::<FsEntry>::empty());
        assert(r@ =~= Seq::<FsEntry>::empty());
        while i < self.results.len()
            invariant
                i <= self.results.len(),
                nf@ == text::lowercase(self.name_filter@),
                ff@ == text::lowercase(self.folder_filter@),
                r@ == visible(
                    self.results@.subrange(0, i as int),
                    self.name_filter@,
                    self.folder_filter@,
                    self.include_folders,
                ),
            decreases self.results.len() - i,
        {
            proof {
                let upto = self.results@.subrange(0, i + 1);
                assert(upto.drop_last() =~= self.results@.subrange(0, i as int));
                assert(upto.last() == self.results@[i as int]);
            }
            if self.is_shown(&self.results[i], nf.as_str(), ff.as_str()) {
                r.push(self.results[i].clone());
            }
            i = i + 1;
        }
        assert(self.results@.subrange(0, self.results@.len() as int) =~= self.results@);
        r
    }

    /// What the dialog says above the results.
    pub open spec fn status_text(self, searching: bool) -> Seq<char> {
        if self.query@.len() == 0 && self.results@.len() == 0 && !searching {
            "Type a file or folder name to search for."@
        } else if searching {
            "Searching… "@ + text::decimal(self.results@.len()) + " found so far"@
        } else if self.filtered() {
            "Showing "@ + text::decimal(self.shown().len()) + " of "@ + text::decimal(
                self.results@.len(),
            ) + " result(s)"@
        } else {
            text::decimal(self.results@.len()) + " result(s) found"@
        }
    }

    /// What the dialog says above the results, of which `shown` are shown.
    pub fn status(&self, searching: bool, shown: usize) -> (r: String)
        requires
            shown == self.shown().len(),
        ensures
            r@ == self.status_text(searching),
    {
        let found = usize_to_string(self.results.len());
        if is_empty_text(self.query.as_str()) && self.results.len() == 0 && !searching {
            "Type a file or folder name to search for.".to_owned()
        } else if searching {
            let mut s = "Searching… ".to_owned();
            s.append(found.as_str());
            s.append(" found so far");
            s
        } else if self.filters_active() {
            let mut s = "Showing ".to_owned();
            s.append(usize_to_string(shown).as_str());
            s.append(" of ");
            s.append(found.as_str());
            s.append(" result(s)");
            s
        } else {
            let mut s = found;
            s.append(" result(s) found");
            s
        }
    }

    /// Whether some filter narrows what is shown.
    pub fn filters_active(&self) -> (r: bool)
        ensures
            r == self.filtered(),
    {
        !is_empty_text(to_lowercase(self.name_filter.as_str()).as_str()) || !is_empty_text(
            to_lowercase(self.folder_filter.as_str()).as_str(),
        ) || !self.include_folders
    }

    /// Whether the dialog says that the filters leave nothing.
    pub fn nothing_passes(&self, shown: usize) -> (r: bool)
        requires
            shown == self.shown().len(),
        ensures
            r == (self.filtered() && self.shown().len() == 0 && self.results@.len() > 0),
    {
        self.filters_active() && shown == 0 && self.results.len() > 0
    }

    /// Begins a search, where there is something to search for: a fresh search
    /// replaces the previous one's results. Returns the query.
    pub fn begin_search(&mut self) -> (r: Option<String>)
        ensures
            old(self).query@.len() == 0 ==> r is None && *final(self) == *old(self),
            old(self).query@.len() > 0 ==> r == Some(old(self).query) && final(self).results@.len() == 0 && *final(self) == (FindDialog {
                results: final(self).results,
                ..*old(self)
            }),
    {
        if is_empty_text(self.query.as_str()) {
            return None;
        }
        self.results = Vec::new();
        Some(self.query.clone())
    }

    /// Takes in the hits that have come since the last frame.
    pub fn add_hits(&mut self, hits: Vec<FsEntry>)
        ensures
            final(self).results@ == old(self).results@ + hits@,
            *final(self) == (FindDialog { results: final(self).results, ..*old(self) }),
    {
        let mut hits = hits;
        self.results.append(&mut hits);
    }

    /// Applies a click on the header of the column `col`.
    pub fn click_header(&mut self, col: &str)
        ensures
            (final(self).sort_col@, final(self).sort_asc) == prefs::sort_after_click(
                old(self).sort_col@,
                old(self).sort_asc,
                col@,
            ),
            *final(self) == (FindDialog {
                sort_col: final(self).sort_col,
                sort_asc: final(self).sort_asc,
                ..*old(self)
            }),
    {
        let (c, a) = next_sort(self.sort_col.as_str(), self.sort_asc, col);
        self.sort_col = c;
        self.sort_asc = a;
    }
}

/// Filters discard nothing: without them every result is shown.
pub proof fn law_without_filters_all_is_shown(
    results: Seq<FsEntry>,
    name_filter: Seq<char>,
    folder_filter: Seq<char>,
)
    requires
        text::lowercase(name_filter).len() == 0,
        text::lowercase(folder_filter).len() == 0,
    ensures
        visible(results, name_filter, folder_filter, true) == results,
    decreases results.len(),
{
    if results.len() > 0 {
        law_without_filters_all_is_shown(results.drop_last(), name_filter, folder_filter);
        assert(results.drop_last().push(results.last()) =~= results);
    }
}

/// Sorting the results by folder keeps each of them, and brings those of one
/// folder together.
pub proof fn law_results_by_folder(s: Seq<FsEntry>, asc: bool, i: int, k: int, j: int)
    requires
        0 <= i < k < j < s.len(),
        folder_key(sort::sorted(s, folder_order(asc))[i]) == folder_key(
            sort::sorted(s, folder_order(asc))[j],
        ),
    ensures
        sort::sorted(s, folder_order(asc)).to_multiset() == s.to_multiset(),
        folder_key(sort::sorted(s, folder_order(asc))[k]) == folder_key(
            sort::sorted(s, folder_order(asc))[i],
        ),
{
    let r = sort::sorted(s, folder_order(asc));
    lemma_folder_order(asc);
    sort::law_sort_permutes(s, folder_order(asc));
    sort::law_sort_orders(s, folder_order(asc));
    assert(!folder_order(asc)(r[k], r[i]));
    assert(!folder_order(asc)(r[j], r[k]));
    text::lemma_text_lt_total(folder_key(r[k]), folder_key(r[i]));
    text::lemma_text_lt_total(folder_key(r[j]), folder_key(r[k]));
}

proof fn lemma_visible(
    results: Seq<FsEntry>,
    nf: Seq<char>,
    ff: Seq<char>,
    dirs: bool,
    p: spec_fn(FsEntry) -> bool,
)
    requires
        forall|e: FsEntry| #[trigger] p(e) == passes(e, nf, ff, dirs),
    ensures
        visible(results, nf, ff, dirs) == results.filter(p),
    decreases results.len(),
{
    reveal(Seq::filter);
    if results.len() > 0 {
        lemma_visible(results.drop_last(), nf, ff, dirs, p);
    }
}

proof fn lemma_occurs(hay: Seq<char>, needle: Seq<char>)
    ensures
        text::occurs(hay, needle) <==> exists|at: int|
            #![trigger hay.subrange(at, at + needle.len())]
            0 <= at && at + needle.len() <= hay.len() && hay.subrange(at, at + needle.len())
                == needle,
{
    if text::occurs(hay, needle) {
        let at = choose|at: int| #[trigger] text::occurs_at(hay, needle, at);
        assert(hay.subrange(at, at + needle.len()) == needle);
    }
    if exists|at: int|
        #![trigger hay.subrange(at, at + needle.len())]
        0 <= at && at + needle.len() <= hay.len() && hay.subrange(at, at + needle.len())
            == needle {
        let at = choose|at: int|
            #![trigger hay.subrange(at, at + needle.len())]
            0 <= at && at + needle.len() <= hay.len() && hay.subrange(at, at + needle.len())
                == needle;
        assert(text::occurs_at(hay, needle, at));
    }
}

/// A result is shown exactly where the name filter stands at some place in its
/// name and the folder filter at some place in the path of its folder, all in
/// lower case, and it is no folder unless those are shown. An empty filter lets
/// everything pass. What is shown keeps its order.
pub proof fn law_filters_leave_what_they_name(d: &FindDialog, r: Vec<FsEntry>, e: FsEntry)
    requires
        call_ensures(FindDialog::view, (d,), r),
    ensures
        ({
            let nf = text::lowercase(d.name_filter@);
            let ff = text::lowercase(d.folder_filter@);
            let name = text::lowercase(e.name@);
            let in_name = exists|at: int|
                #![trigger name.subrange(at, at + nf.len())]
                0 <= at && at + nf.len() <= name.len() && name.subrange(at, at + nf.len()) == nf;
            let dir = text::lowercase(path::parent_of(e.path@)->0);
            let in_dir = path::parent_of(e.path@) is Some && exists|at: int|
                #![trigger dir.subrange(at, at + ff.len())]
                0 <= at && at + ff.len() <= dir.len() && dir.subrange(at, at + ff.len()) == ff;
            r@.contains(e) <==> {
                &&& d.results@.contains(e)
                &&& d.include_folders || !e.is_dir
                &&& nf.len() == 0 || in_name
                &&& ff.len() == 0 || in_dir
            }
        }),
        exists|p: spec_fn(FsEntry) -> bool| r@ == #[trigger] d.results@.filter(p),
{
    let p = |x: FsEntry| passes(x, d.name_filter@, d.folder_filter@, d.include_folders);
    lemma_visible(d.results@, d.name_filter@, d.folder_filter@, d.include_folders, p);
    lemma_occurs(text::lowercase(e.name@), text::lowercase(d.name_filter@));
    if path::parent_of(e.path@) is Some {
        lemma_occurs(
            text::lowercase(path::parent_of(e.path@)->0),
            text::lowercase(d.folder_filter@),
        );
    }
    if r@.contains(e) {
        let i = choose|i: int| 0 <= i < r@.len() && r@[i] == e;
        d.results@.lemma_filter_pred(p, i);
        d.results@.lemma_filter_contains_rev(p, e);
    }
    if d.results@.contains(e) && p(e) {
        let i = choose|i: int| 0 <= i < d.results@.len() && d.results@[i] == e;
        d.results@.lemma_filter_contains(p, i);
    }
}

/// Sorting the results keeps each of them. By size, the sizes of the files
/// ascend, or descend where the direction does. A new search drops what was
/// found before, and hits are added behind what was found.
pub proof fn law_results_are_kept()
    ensures
        forall|d: &mut FindDialog| #[trigger]
            call_ensures(FindDialog::sort_results, (d,), ()) ==> {
                &&& final(d).results@.to_multiset() == d.results@.to_multiset()
                &&& final(d).query == d.query && final(d).name_filter == d.name_filter
            },
        forall|d: &mut FindDialog, i: int, j: int|
            #![trigger call_ensures(FindDialog::sort_results, (d,), ()), final(d).results@[i], final(d).results@[j]]
            call_ensures(FindDialog::sort_results, (d,), ()) && d.sort_col@ == "size"@ && 0 <= i < j
                < d.results@.len() && !final(d).results@[i].is_dir ==> if d.sort_asc {
                final(d).results@[i].size <= final(d).results@[j].size
            } else {
                final(d).results@[i].size >= final(d).results@[j].size
            },
        forall|d: &mut FindDialog, hits: Vec<FsEntry>| #[trigger]
            call_ensures(FindDialog::add_hits, (d, hits), ()) ==> final(d).results@ == d.results@
                + hits@,
        forall|d: &mut FindDialog, r: Option<String>| #[trigger]
            call_ensures(FindDialog::begin_search, (d,), r) ==> {
                &&& r is Some <==> d.query@.len() > 0
                &&& r is Some ==> r->0@ == d.query@ && final(d).results@.len() == 0
                &&& r is None ==> *final(d) == *d
            },
{
    reveal_strlit("size");
    reveal_strlit("folder");
    assert("size"@.len() != "folder"@.len());
    assert forall|s: Seq<FsEntry>, col: Seq<char>, asc: bool|
        (#[trigger] sorted_results(s, col, asc)).to_multiset() == s.to_multiset() by {
        sort::law_sort_permutes(s, folder_order(asc));
        fs_entry::law_sort_keeps_entries(s, col, asc);
    }
    assert forall|d: &mut FindDialog, i: int, j: int|
        #![trigger call_ensures(FindDialog::sort_results, (d,), ()), final(d).results@[i], final(d).results@[j]]
        call_ensures(FindDialog::sort_results, (d,), ()) && d.sort_col@ == "size"@ && 0 <= i < j
            < d.results@.len() && !final(d).results@[i].is_dir implies if d.sort_asc {
        final(d).results@[i].size <= final(d).results@[j].size
    } else {
        final(d).results@[i].size >= final(d).results@[j].size
    } by {
        fs_entry::law_sizes_ascend(d.results@, d.sort_asc, i, j);
    }
}

/// Results that are sorted by folder are grouped by the folder that they lie in,
/// and stand by name within it; descending turns the whole order round.
pub proof fn law_results_stand_by_folder(i: int, j: int)
    ensures
        forall|d: &mut FindDialog|
            #[trigger] call_ensures(FindDialog::sort_results, (d,), ()) && d.sort_col@ == "folder"@
                && 0 <= i < j < d.results@.len() ==> {
                let r = final(d).results@;
                let (a, b) = if d.sort_asc {
                    (r[i], r[j])
                } else {
                    (r[j], r[i])
                };
                let fa = match path::parent_of(a.path@) {
                    Some(up) => text::lowercase(up),
                    None => Seq::empty(),
                };
                let fb = match path::parent_of(b.path@) {
                    Some(up) => text::lowercase(up),
                    None => Seq::empty(),
                };
                &&& r.len() == d.results@.len()
                &&& !text::text_lt(fb, fa)
                &&& fa == fb ==> !text::text_lt(text::lowercase(b.name@), text::lowercase(a.name@))
            },
{
    assert forall|d: &mut FindDialog|
        #[trigger] call_ensures(FindDialog::sort_results, (d,), ()) && d.sort_col@ == "folder"@ && 0
            <= i < j < d.results@.len() implies {
        let r = final(d).results@;
        let (a, b) = if d.sort_asc {
            (r[i], r[j])
        } else {
            (r[j], r[i])
        };
        let fa = match path::parent_of(a.path@) {
            Some(up) => text::lowercase(up),
            None => Seq::empty(),
        };
        let fb = match path::parent_of(b.path@) {
            Some(up) => text::lowercase(up),
            None => Seq::empty(),
        };
        &&& r.len() == d.results@.len()
        &&& !text::text_lt(fb, fa)
        &&& fa == fb ==> !text::text_lt(text::lowercase(b.name@), text::lowercase(a.name@))
    } by {
        let order = folder_order(d.sort_asc);
        let r = sort::sorted(d.results@, order);
        lemma_folder_order(d.sort_asc);
        sort::law_sort_permutes(d.results@, order);
        sort::law_sort_orders(d.results@, order);
        assert(final(d).results@ == r);
        assert(!order(r[j], r[i]));
    }
}

/// A search begins where something was typed, and without the results of the one
/// before; hits join the results; a click on a header changes the sorting alone.
pub proof fn law_a_search_begins_afresh(hits: Vec<FsEntry>, col: &str)
    ensures
        forall|d: &mut FindDialog, r: Option<String>|
            #[trigger] call_ensures(FindDialog::begin_search, (d,), r) ==> {
                &&& r is Some <==> d.query@.len() > 0
                &&& r is Some ==> r->0 == d.query && final(d).results@.len() == 0
                &&& r is None ==> final(d).results == d.results
                &&& final(d).search_path == d.search_path && final(d).query == d.query
            },
        forall|d: &mut FindDialog|
            #[trigger] call_ensures(FindDialog::add_hits, (d, hits), ()) ==> {
                &&& final(d).results@ == d.results@ + hits@
                &&& final(d).query == d.query
            },
        forall|d: &mut FindDialog|
            #[trigger] call_ensures(FindDialog::click_header, (d, col), ()) ==> {
                &&& final(d).sort_col@ == col@
                &&& final(d).sort_asc == (d.sort_col@ != col@ || !d.sort_asc)
                &&& final(d).results == d.results && final(d).query == d.query
            },
{
}

} // verus!
