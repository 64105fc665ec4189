//! Entries of a folder listing and the order in which they are shown.

use crate::path::file_name;
use crate::sort::merge_sort;
use crate::text::{chars_of, str_eq, str_lt, to_lowercase};
use crate::{path, sort, text};
use vstd::prelude::*;

verus! {

/// One file or folder of a listing.
#[derive(Debug, PartialEq)]
pub struct FsEntry {
    pub name: String,
    pub path: String,
    pub is_dir: bool,
    pub size: u64,
    /// Nanoseconds since the Unix epoch, where the time is known.
    pub modified: Option<i128>,
    /// Windows FILE_ATTRIBUTE_ARCHIVE (0x20).
    pub archive: bool,
    /// Windows FILE_ATTRIBUTE_READONLY (0x1).
    pub readonly: bool,
    /// Windows FILE_ATTRIBUTE_HIDDEN (0x2).
    pub hidden: bool,
    /// Windows FILE_ATTRIBUTE_SYSTEM (0x4).
    pub system: bool,
}

impl Clone for FsEntry {
    fn clone(&self) -> (r: Self)
        ensures
            r == *self,
    {
        FsEntry {
            name: self.name.clone(),
            path: self.path.clone(),
            is_dir: self.is_dir,
            size: self.size,
            modified: self.modified,
            archive: self.archive,
            readonly: self.readonly,
            hidden: self.hidden,
            system: self.system,
        }
    }
}

/// What the file system reports of one item of a folder.
#[derive(Debug, PartialEq)]
pub struct RawEntry {
    pub name: String,
    pub path: String,
    pub is_dir: bool,
    pub size: u64,
    pub modified: Option<i128>,
    /// The Windows attribute bits; zero where there are none.
    pub attributes: u32,
}

const FILE_ATTRIBUTE_READONLY: u32 = 0x1;

const FILE_ATTRIBUTE_HIDDEN: u32 = 0x2;

const FILE_ATTRIBUTE_SYSTEM: u32 = 0x4;

const FILE_ATTRIBUTE_ARCHIVE: u32 = 0x20;

/// A copy of a listing.
pub fn clone_entries(v: &Vec<FsEntry>) -> (r: Vec<FsEntry>)
    ensures
        r@ == v@,
{
    let mut out: Vec<FsEntry> = Vec::new();
    let mut i: usize = 0;
    while i < v.len()
        invariant
            i <= v@.len(),
            out@ == v@.subrange(0, i as int),
        decreases v@.len() - i,
    {
        out.push(v[i].clone());
        i = i + 1;
    }
    out
}

// ---------------------------------------------------------------------------
// Order
// ---------------------------------------------------------------------------

/// A missing time is older than every time.
pub open spec fn time_lt(a: Option<i128>, b: Option<i128>) -> bool {
    match (a, b) {
        (None, Some(_)) => true,
        (Some(x), Some(y)) => x < y,
        _ => false,
    }
}

/// The name of `a` comes before the name of `b`, whatever their case.
pub open spec fn name_lt(a: FsEntry, b: FsEntry) -> bool {
    text::text_lt(text::lowercase(a.name@), text::lowercase(b.name@))
}

/// `a` has the smaller value in the column `col`; every column that is not
/// `modified`, `size` or `archive` is the name.
pub open spec fn column_lt(a: FsEntry, b: FsEntry, col: Seq<char>) -> bool {
    if col == "modified"@ {
        time_lt(a.modified, b.modified)
    } else if col == "size"@ {
        a.size < b.size
    } else if col == "archive"@ {
        !a.archive && b.archive
    } else {
        name_lt(a, b)
    }
}

/// `a` is shown before `b`: folders first, by name; then files by the column.
pub open spec fn precedes(a: FsEntry, b: FsEntry, col: Seq<char>, asc: bool) -> bool {
    if a.is_dir != b.is_dir {
        a.is_dir
    } else if a.is_dir {
        name_lt(a, b)
    } else if asc {
        column_lt(a, b, col)
    } else {
        column_lt(b, a, col)
    }
}

/// The order of a listing that is sorted by `col`.
pub open spec fn entry_order(col: Seq<char>, asc: bool) -> spec_fn(FsEntry, FsEntry) -> bool {
    |a: FsEntry, b: FsEntry| precedes(a, b, col, asc)
}

/// A listing sorted by `col`.
pub open spec fn sorted_entries(s: Seq<FsEntry>, col: Seq<char>, asc: bool) -> Seq<FsEntry> {
    sort::sorted(s, entry_order(col, asc))
}

pub(crate) proof fn lemma_text_order(a: Seq<char>, b: Seq<char>, c: Seq<char>)
    ensures
        !text::text_lt(a, a),
        text::text_lt(a, b) && text::text_lt(b, c) ==> text::text_lt(a, c),
        !text::text_lt(a, b) && !text::text_lt(b, c) ==> !text::text_lt(a, c),
{
    text::lemma_text_lt_irreflexive(a);
    if text::text_lt(a, b) && text::text_lt(b, c) {
        text::lemma_text_lt_transitive(a, b, c);
    }
    if !text::text_lt(a, b) && !text::text_lt(b, c) && text::text_lt(a, c) {
        text::lemma_text_lt_total(a, b);
        text::lemma_text_lt_total(b, c);
        if a == b {
        } else {
            text::lemma_text_lt_transitive(b, a, c);
        }
    }
}

/// The order of a listing is a strict weak order.
pub proof fn lemma_entry_order(col: Seq<char>, asc: bool)
    ensures
        sort::strict_weak_order(entry_order(col, asc)),
{
    let lt = entry_order(col, asc);
    assert forall|a: FsEntry| !#[trigger] lt(a, a) by {
        lemma_text_order(text::lowercase(a.name@), text::lowercase(a.name@), text::lowercase(a.name@));
    }
    assert forall|a: FsEntry, b: FsEntry, c: FsEntry| #[trigger]
        lt(a, b) && #[trigger] lt(b, c) implies lt(a, c) by {
        lemma_text_order(text::lowercase(a.name@), text::lowercase(b.name@), text::lowercase(c.name@));
        lemma_text_order(text::lowercase(c.name@), text::lowercase(b.name@), text::lowercase(a.name@));
    }
    assert forall|a: FsEntry, b: FsEntry, c: FsEntry|
        !#[trigger] lt(a, b) && !#[trigger] lt(b, c) implies !lt(a, c) by {
        lemma_text_order(text::lowercase(a.name@), text::lowercase(b.name@), text::lowercase(c.name@));
        lemma_text_order(text::lowercase(c.name@), text::lowercase(b.name@), text::lowercase(a.name@));
    }
}

fn is_name_lt(a: &FsEntry, b: &FsEntry) -> (r: bool)
    ensures
        r == name_lt(*a, *b),
{
    let x: Vec<char> = chars_of(to_lowercase(a.name.as_str()).as_str());
    let y: Vec<char> = chars_of(to_lowercase(b.name.as_str()).as_str());
    str_lt(&x, &y)
}

fn is_time_lt(a: Option<i128>, b: Option<i128>) -> (r: bool)
    ensures
        r == time_lt(a, b),
{
    match (a, b) {
        (None, Some(_)) => true,
        (Some(x), Some(y)) => x < y,
        _ => false,
    }
}

fn is_column_lt(a: &FsEntry, b: &FsEntry, col: &str) -> (r: bool)
    ensures
        r == column_lt(*a, *b, col@),
{
    if str_eq(col, "modified") {
        is_time_lt(a.modified, b.modified)
    } else if str_eq(col, "size") {
        a.size < b.size
    } else if str_eq(col, "archive") {
        !a.archive && b.archive
    } else {
        is_name_lt(a, b)
    }
}

fn is_before(a: &FsEntry, b: &FsEntry, col: &str, asc: bool) -> (r: bool)
    ensures
        r == precedes(*a, *b, col@, asc),
{
    if a.is_dir != b.is_dir {
        a.is_dir
    } else if a.is_dir {
        is_name_lt(a, b)
    } else if asc {
        is_column_lt(a, b, col)
    } else {
        is_column_lt(b, a, col)
    }
}

/// Sorts entries in place. Directories always come first, sorted
/// alphabetically by name (case-insensitive) regardless of the requested
/// sort column. Files follow the requested column, of which "name",
/// "modified", "size" and "archive" are recognized. Entries that compare
/// equal keep their order.
pub fn sort_entries(entries: &mut Vec<FsEntry>, sort_col: &str, asc: bool)
    ensures
        final(entries)@ == sorted_entries(old(entries)@, sort_col@, asc),
{
    let mut taken: Vec<FsEntry> = Vec::new();
    std::mem::swap(entries, &mut taken);
    proof {
        lemma_entry_order(sort_col@, asc);
    }
    let less = |a: &FsEntry, b: &FsEntry| -> (r: bool)
        ensures
            r == precedes(*a, *b, sort_col@, asc),
        { is_before(a, b, sort_col, asc) };
    *entries = merge_sort(taken, &less, Ghost(entry_order(sort_col@, asc)));
}

/// Sorting a listing keeps every entry as often as it was there.
pub proof fn law_sort_keeps_entries(s: Seq<FsEntry>, col: Seq<char>, asc: bool)
    ensures
        sorted_entries(s, col, asc).len() == s.len(),
        sorted_entries(s, col, asc).to_multiset() == s.to_multiset(),
{
    sort::law_sort_permutes(s, entry_order(col, asc));
}

/// In a sorted listing every folder stands before every file.
pub proof fn law_folders_come_first(s: Seq<FsEntry>, col: Seq<char>, asc: bool, i: int, j: int)
    requires
        0 <= i < j < s.len(),
        sorted_entries(s, col, asc)[j].is_dir,
    ensures
        sorted_entries(s, col, asc)[i].is_dir,
{
    let r = sorted_entries(s, col, asc);
    lemma_entry_order(col, asc);
    sort::law_sort_orders(s, entry_order(col, asc));
    sort::law_sort_permutes(s, entry_order(col, asc));
    assert(!precedes(r[j], r[i], col, asc));
}

/// Folders are in the order of their names whatever the column and direction.
pub proof fn law_folders_are_alphabetical(
    s: Seq<FsEntry>,
    col: Seq<char>,
    asc: bool,
    i: int,
    j: int,
)
    requires
        0 <= i < j < s.len(),
        sorted_entries(s, col, asc)[i].is_dir,
        sorted_entries(s, col, asc)[j].is_dir,
    ensures
        !name_lt(sorted_entries(s, col, asc)[j], sorted_entries(s, col, asc)[i]),
{
    let r = sorted_entries(s, col, asc);
    lemma_entry_order(col, asc);
    sort::law_sort_orders(s, entry_order(col, asc));
    sort::law_sort_permutes(s, entry_order(col, asc));
    assert(!precedes(r[j], r[i], col, asc));
}

/// Files follow the column, downwards where the direction is descending.
pub proof fn law_files_follow_the_column(
    s: Seq<FsEntry>,
    col: Seq<char>,
    asc: bool,
    i: int,
    j: int,
)
    requires
        0 <= i < j < s.len(),
        !sorted_entries(s, col, asc)[i].is_dir,
    ensures
        asc ==> !column_lt(sorted_entries(s, col, asc)[j], sorted_entries(s, col, asc)[i], col),
        !asc ==> !column_lt(sorted_entries(s, col, asc)[i], sorted_entries(s, col, asc)[j], col),
{
    let r = sorted_entries(s, col, asc);
    lemma_entry_order(col, asc);
    sort::law_sort_orders(s, entry_order(col, asc));
    sort::law_sort_permutes(s, entry_order(col, asc));
    assert(!precedes(r[j], r[i], col, asc));
}

/// Sorting a sorted listing changes nothing.
pub proof fn law_sort_is_idempotent(s: Seq<FsEntry>, col: Seq<char>, asc: bool)
    ensures
        sorted_entries(sorted_entries(s, col, asc), col, asc) == sorted_entries(s, col, asc),
{
    lemma_entry_order(col, asc);
    sort::law_sort_orders(s, entry_order(col, asc));
    sort::law_sort_keeps_order(sorted_entries(s, col, asc), entry_order(col, asc));
}

/// Two folders of the same name, letter case aside, and two files that the
/// column does not tell apart keep their order, in either direction.
pub proof fn law_equal_entries_keep_their_order(
    s: Seq<FsEntry>,
    col: Seq<char>,
    asc: bool,
    i: int,
    j: int,
)
    requires
        0 <= i < j < s.len(),
        !precedes(s[i], s[j], col, asc),
        !precedes(s[j], s[i], col, asc),
    ensures
        sort::all_alike(sorted_entries(s, col, asc), s[i], entry_order(col, asc))
            == sort::all_alike(s, s[i], entry_order(col, asc)),
        exists|a: int, b: int|
            0 <= a < b < s.len() && #[trigger] sorted_entries(s, col, asc)[a] == s[i]
                && #[trigger] sorted_entries(s, col, asc)[b] == s[j],
{
    lemma_entry_order(col, asc);
    sort::law_sort_permutes(s, entry_order(col, asc));
    sort::law_sort_is_stable(s, s[i], entry_order(col, asc));
    sort::law_sort_keeps_pairs(s, entry_order(col, asc), i, j);
}

// ---------------------------------------------------------------------------
// Listings
// ---------------------------------------------------------------------------

/// `e` shows what the file system reports in `raw`.
pub open spec fn shows(e: FsEntry, raw: RawEntry) -> bool {
    &&& e.name@ == raw.name@
    &&& e.path@ == raw.path@
    &&& e.is_dir == raw.is_dir
    &&& e.size == raw.size
    &&& e.modified == raw.modified
    &&& e.archive == (raw.attributes & 0x20u32 != 0)
    &&& e.readonly == (raw.attributes & 0x1u32 != 0)
    &&& e.hidden == (raw.attributes & 0x2u32 != 0)
    &&& e.system == (raw.attributes & 0x4u32 != 0)
}

/// `s` shows what the file system reports in `raw`, item by item.
pub open spec fn shows_all(s: Seq<FsEntry>, raw: Seq<RawEntry>) -> bool {
    s.len() == raw.len() && forall|i: int| 0 <= i < s.len() ==> shows(#[trigger] s[i], raw[i])
}

/// The entry that shows one reported item.
fn entry_of(raw: &RawEntry) -> (r: FsEntry)
    ensures
        shows(r, *raw),
{
    FsEntry {
        name: raw.name.clone(),
        path: raw.path.clone(),
        is_dir: raw.is_dir,
        size: raw.size,
        modified: raw.modified,
        archive: raw.attributes & FILE_ATTRIBUTE_ARCHIVE != 0,
        readonly: raw.attributes & FILE_ATTRIBUTE_READONLY != 0,
        hidden: raw.attributes & FILE_ATTRIBUTE_HIDDEN != 0,
        system: raw.attributes & FILE_ATTRIBUTE_SYSTEM != 0,
    }
}

/// The listing of a folder, sorted by name, made of what the file system
/// reports of its items.
pub fn list_dir(raw: &Vec<RawEntry>) -> (r: Vec<FsEntry>)
    ensures
        exists|s: Seq<FsEntry>| #[trigger]
            shows_all(s, raw@) && r@ == sorted_entries(s, "name"@, true),
{
    let mut entries: Vec<FsEntry> = Vec::new();
    let mut i: usize = 0;
    while i < raw.len()
        invariant
            i <= raw@.len(),
            entries@.len() == i,
            forall|j: int| 0 <= j < i ==> shows(#[trigger] entries@[j], raw@[j]),
        decreases raw@.len() - i,
    {
        entries.push(entry_of(&raw[i]));
        i = i + 1;
    }
    let ghost s = entries@;
    assert(shows_all(s, raw@));
    sort_entries(&mut entries, "name", true);
    entries
}

/// One item of a folder as the sidebar tree reads it.
#[derive(Debug, PartialEq)]
pub struct RawChild {
    pub path: String,
    /// Nothing where the kind of the item could not be read.
    pub is_dir: Option<bool>,
}

/// The order of subfolders: by file name in lower case; a path without a file
/// name comes first.
pub open spec fn subdir_lt(a: Seq<char>, b: Seq<char>) -> bool {
    match (path::file_name_of(a), path::file_name_of(b)) {
        (None, Some(_)) => true,
        (Some(x), Some(y)) => text::text_lt(text::lowercase(x), text::lowercase(y)),
        _ => false,
    }
}

/// The order of subfolders, on strings.
pub open spec fn subdir_order() -> spec_fn(String, String) -> bool {
    |a: String, b: String| subdir_lt(a@, b@)
}

/// The paths of the children that are folders.
pub open spec fn folder_paths(children: Seq<RawChild>) -> Seq<String>
    decreases children.len(),
{
    if children.len() == 0 {
        Seq::<String>::empty()
    } else if children.last().is_dir == Some(true) {
        folder_paths(children.drop_last()).push(children.last().path)
    } else {
        folder_paths(children.drop_last())
    }
}

proof fn lemma_subdir_order()
    ensures
        sort::strict_weak_order(subdir_order()),
{
    let lt = subdir_order();
    assert forall|a: String| !#[trigger] lt(a, a) by {
        if let Some(x) = path::file_name_of(a@) {
            lemma_text_order(text::lowercase(x), text::lowercase(x), text::lowercase(x));
        }
    }
    assert forall|a: String, b: String, c: String| #[trigger]
        lt(a, b) && #[trigger] lt(b, c) implies lt(a, c) by {
        if let (Some(x), Some(y), Some(z)) = (
            path::file_name_of(a@),
            path::file_name_of(b@),
            path::file_name_of(c@),
        ) {
            lemma_text_order(text::lowercase(x), text::lowercase(y), text::lowercase(z));
        }
    }
    assert forall|a: String, b: String, c: String|
        !#[trigger] lt(a, b) && !#[trigger] lt(b, c) implies !lt(a, c) by {
        if let (Some(x), Some(y), Some(z)) = (
            path::file_name_of(a@),
            path::file_name_of(b@),
            path::file_name_of(c@),
        ) {
            lemma_text_order(text::lowercase(x), text::lowercase(y), text::lowercase(z));
        }
    }
}

fn is_subdir_before(a: &String, b: &String) -> (r: bool)
    ensures
        r == subdir_lt(a@, b@),
{
    match (file_name(a.as_str()), file_name(b.as_str())) {
        (None, Some(_)) => true,
        (Some(x), Some(y)) => {
            let lx: Vec<char> = chars_of(to_lowercase(x.as_str()).as_str());
            let ly: Vec<char> = chars_of(to_lowercase(y.as_str()).as_str());
            str_lt(&lx, &ly)
        },
        _ => false,
    }
}

/// The immediate subfolders among the items of a folder, sorted by name. A
/// folder that could not be read has no items, and so no subfolders.
pub fn list_subdirs(children: &Vec<RawChild>) -> (r: Vec<String>)
    ensures
        r@ == sort::sorted(folder_paths(children@), subdir_order()),
{
    let mut dirs: Vec<String> = Vec::new();
    let mut i: usize = 0;
    while i < children.len()
        invariant
            i <= children@.len(),
            dirs@ == folder_paths(children@.subrange(0, i as int)),
        decreases children@.len() - i,
    {
        assert(children@.subrange(0, i + 1).drop_last() =~= children@.subrange(0, i as int));
        match children[i].is_dir {
            Some(true) => {
                dirs.push(children[i].path.clone());
            },
            _ => {},
        }
        i = i + 1;
    }
    assert(children@.subrange(0, i as int) =~= children@);
    proof {
        lemma_subdir_order();
    }
    let less = |a: &String, b: &String| -> (r: bool)
        ensures
            r == subdir_lt(a@, b@),
        { is_subdir_before(a, b) };
    merge_sort(dirs, &less, Ghost(subdir_order()))
}

/// The letters of the attributes that are set, in the order R, H, S, A.
pub open spec fn attribute_letters(e: FsEntry) -> Seq<char> {
    (if e.readonly {
        seq!['R']
    } else {
        Seq::<char>::empty()
    }) + (if e.hidden {
        seq!['H']
    } else {
        Seq::<char>::empty()
    }) + (if e.system {
        seq!['S']
    } else {
        Seq::<char>::empty()
    }) + (if e.archive {
        seq!['A']
    } else {
        Seq::<char>::empty()
    })
}

/// What the attribute column of a listing shows.
pub fn attribute_label(e: &FsEntry) -> (r: String)
    ensures
        r@ == attribute_letters(*e),
{
    let mut out = String::new();
    if e.readonly {
        out.push('R');
    }
    if e.hidden {
        out.push('H');
    }
    if e.system {
        out.push('S');
    }
    if e.archive {
        out.push('A');
    }
    assert(out@ =~= attribute_letters(*e));
    out
}

// ---------------------------------------------------------------------------
// What a sorted listing looks like
// ---------------------------------------------------------------------------

/// What `text_lt` leaves open of two texts that it does not put the other way
/// round: at the first place where they differ, the earlier one has the smaller
/// character or ends.
proof fn lemma_not_after(a: Seq<char>, b: Seq<char>, k: int)
    requires
        !text::text_lt(b, a),
        0 <= k < a.len(),
        k <= b.len(),
        a.subrange(0, k) == b.subrange(0, k),
    ensures
        k < b.len(),
        a[k] as int <= b[k] as int,
    decreases k,
{
    if k > 0 {
        assert(a[0] == a.subrange(0, k)[0]);
        assert(b[0] == b.subrange(0, k)[0]);
        let ta = a.subrange(1, a.len() as int);
        let tb = b.subrange(1, b.len() as int);
        assert(ta.subrange(0, k - 1) =~= a.subrange(0, k).subrange(1, k));
        assert(tb.subrange(0, k - 1) =~= b.subrange(0, k).subrange(1, k));
        lemma_not_after(ta, tb, k - 1);
    }
}

/// Folders come first in a sorted listing. Among them, and among the files of a
/// listing by name, the names ascend, all in lower case: of two of them the
/// later one has the larger character where they first differ, or the earlier
/// one ends there. Files descend where the direction does.
pub proof fn law_names_ascend(
    s: Seq<FsEntry>,
    col: Seq<char>,
    asc: bool,
    i: int,
    j: int,
    k: int,
)
    requires
        0 <= i < j < s.len(),
    ensures
        ({
            let r = sorted_entries(s, col, asc);
            let by_name = col != "modified"@ && col != "size"@ && col != "archive"@;
            let first = if r[i].is_dir || asc {
                text::lowercase(r[i].name@)
            } else {
                text::lowercase(r[j].name@)
            };
            let second = if r[i].is_dir || asc {
                text::lowercase(r[j].name@)
            } else {
                text::lowercase(r[i].name@)
            };
            &&& r[j].is_dir ==> r[i].is_dir
            &&& r[i].is_dir == r[j].is_dir && (r[i].is_dir || by_name) && 0 <= k < first.len() && k
                <= second.len() && first.subrange(0, k) == second.subrange(0, k) ==> k
                < second.len() && first[k] as int <= second[k] as int
        }),
{
    let r = sorted_entries(s, col, asc);
    lemma_entry_order(col, asc);
    sort::law_sort_orders(s, entry_order(col, asc));
    sort::law_sort_permutes(s, entry_order(col, asc));
    assert(!precedes(r[j], r[i], col, asc));
    let by_name = col != "modified"@ && col != "size"@ && col != "archive"@;
    let li = text::lowercase(r[i].name@);
    let lj = text::lowercase(r[j].name@);
    if r[i].is_dir == r[j].is_dir && (r[i].is_dir || by_name) {
        if r[i].is_dir || asc {
            if 0 <= k < li.len() && k <= lj.len() && li.subrange(0, k) == lj.subrange(0, k) {
                lemma_not_after(li, lj, k);
            }
        } else {
            if 0 <= k < lj.len() && k <= li.len() && lj.subrange(0, k) == li.subrange(0, k) {
                lemma_not_after(lj, li, k);
            }
        }
    }
}

/// In a listing by size the sizes of the files ascend, or descend where the
/// direction does.
pub proof fn law_sizes_ascend(s: Seq<FsEntry>, asc: bool, i: int, j: int)
    requires
        0 <= i < j < s.len(),
        !sorted_entries(s, "size"@, asc)[i].is_dir,
    ensures
        !sorted_entries(s, "size"@, asc)[j].is_dir,
        asc ==> sorted_entries(s, "size"@, asc)[i].size <= sorted_entries(s, "size"@, asc)[j].size,
        !asc ==> sorted_entries(s, "size"@, asc)[i].size >= sorted_entries(s, "size"@, asc)[j].size,
{
    let r = sorted_entries(s, "size"@, asc);
    reveal_strlit("size");
    reveal_strlit("modified");
    assert("size"@.len() != "modified"@.len());
    lemma_entry_order("size"@, asc);
    sort::law_sort_orders(s, entry_order("size"@, asc));
    sort::law_sort_permutes(s, entry_order("size"@, asc));
    assert(!precedes(r[j], r[i], "size"@, asc));
}

/// In a listing by time the times of the files ascend, or descend where the
/// direction does. A file whose time is not known counts as older than all
/// others.
pub proof fn law_times_ascend(s: Seq<FsEntry>, asc: bool, i: int, j: int)
    requires
        0 <= i < j < s.len(),
        !sorted_entries(s, "modified"@, asc)[i].is_dir,
    ensures
        ({
            let r = sorted_entries(s, "modified"@, asc);
            let first = if asc {
                r[i]
            } else {
                r[j]
            };
            let second = if asc {
                r[j]
            } else {
                r[i]
            };
            &&& !r[j].is_dir
            &&& first.modified is Some ==> second.modified is Some && first.modified->0
                <= second.modified->0
        }),
{
    let r = sorted_entries(s, "modified"@, asc);
    lemma_entry_order("modified"@, asc);
    sort::law_sort_orders(s, entry_order("modified"@, asc));
    sort::law_sort_permutes(s, entry_order("modified"@, asc));
    assert(!precedes(r[j], r[i], "modified"@, asc));
}

/// In a listing by the archive flag the files without it come first, or last
/// where the direction is descending.
pub proof fn law_archive_flags_ascend(s: Seq<FsEntry>, asc: bool, i: int, j: int)
    requires
        0 <= i < j < s.len(),
        !sorted_entries(s, "archive"@, asc)[i].is_dir,
    ensures
        !sorted_entries(s, "archive"@, asc)[j].is_dir,
        asc ==> (sorted_entries(s, "archive"@, asc)[i].archive ==> sorted_entries(
            s,
            "archive"@,
            asc,
        )[j].archive),
        !asc ==> (sorted_entries(s, "archive"@, asc)[j].archive ==> sorted_entries(
            s,
            "archive"@,
            asc,
        )[i].archive),
{
    let r = sorted_entries(s, "archive"@, asc);
    reveal_strlit("size");
    reveal_strlit("modified");
    reveal_strlit("archive");
    assert("archive"@.len() != "modified"@.len());
    assert("archive"@.len() != "size"@.len());
    lemma_entry_order("archive"@, asc);
    sort::law_sort_orders(s, entry_order("archive"@, asc));
    sort::law_sort_permutes(s, entry_order("archive"@, asc));
    assert(!precedes(r[j], r[i], "archive"@, asc));
}

/// Two folders whose names are the same in lower case keep their order. So do
/// two files of the same size in a listing by size, of the same time in one by
/// time, with the same flag in one by the archive flag, and of the same name in
/// lower case in any other.
pub proof fn law_ties_keep_their_order(s: Seq<FsEntry>, col: Seq<char>, asc: bool, i: int, j: int)
    requires
        0 <= i < j < s.len(),
        s[i].is_dir == s[j].is_dir,
        if s[i].is_dir {
            text::lowercase(s[i].name@) == text::lowercase(s[j].name@)
        } else if col == "modified"@ {
            s[i].modified == s[j].modified
        } else if col == "size"@ {
            s[i].size == s[j].size
        } else if col == "archive"@ {
            s[i].archive == s[j].archive
        } else {
            text::lowercase(s[i].name@) == text::lowercase(s[j].name@)
        },
    ensures
        exists|a: int, b: int|
            0 <= a < b < s.len() && #[trigger] sorted_entries(s, col, asc)[a] == s[i]
                && #[trigger] sorted_entries(s, col, asc)[b] == s[j],
{
    text::lemma_text_lt_irreflexive(text::lowercase(s[i].name@));
    law_equal_entries_keep_their_order(s, col, asc, i, j);
}

/// Sorting in place leaves the entries that were there, each as often as it
/// was, and nothing but their order changes.
pub proof fn law_sorting_rearranges()
    ensures
        forall|entries: &mut Vec<FsEntry>, col: &str, asc: bool| #[trigger]
            call_ensures(sort_entries, (entries, col, asc), ()) ==> final(entries)@.to_multiset()
                == entries@.to_multiset() && final(entries)@ == sorted_entries(
                entries@,
                col@,
                asc,
            ),
{
    assert forall|s: Seq<FsEntry>, col: Seq<char>, asc: bool|
        (#[trigger] sorted_entries(s, col, asc)).to_multiset() == s.to_multiset() by {
        law_sort_keeps_entries(s, col, asc);
    }
}

/// What an entry shows is what the file system reports: the name, the path, the
/// kind, the size and the time as they are, and of the attribute bits the first
/// as read-only, the second as hidden, the third as system and the sixth as
/// archive.
pub proof fn law_entries_show_the_attributes(e: FsEntry, raw: RawEntry)
    requires
        shows(e, raw),
    ensures
        e.name@ == raw.name@ && e.path@ == raw.path@,
        e.is_dir == raw.is_dir && e.size == raw.size && e.modified == raw.modified,
        e.readonly <==> raw.attributes % 2 == 1,
        e.hidden <==> (raw.attributes / 2) % 2 == 1,
        e.system <==> (raw.attributes / 4) % 2 == 1,
        e.archive <==> (raw.attributes / 32) % 2 == 1,
{
    let a = raw.attributes;
    assert((a & 0x1u32 != 0) == (a % 2 == 1)) by (bit_vector);
    assert((a & 0x2u32 != 0) == ((a / 2) % 2 == 1)) by (bit_vector);
    assert((a & 0x4u32 != 0) == ((a / 4) % 2 == 1)) by (bit_vector);
    assert((a & 0x20u32 != 0) == ((a / 32) % 2 == 1)) by (bit_vector);
}

// ---------------------------------------------------------------------------
// Subfolders and attributes
// ---------------------------------------------------------------------------

proof fn lemma_folder_paths(children: Seq<RawChild>, p: spec_fn(RawChild) -> bool)
    requires
        forall|c: RawChild| #[trigger] p(c) == (c.is_dir == Some(true)),
    ensures
        folder_paths(children) == children.filter(p).map_values(|c: RawChild| c.path),
    decreases children.len(),
{
    reveal(Seq::filter);
    if children.len() > 0 {
        let front = children.drop_last();
        lemma_folder_paths(front, p);
        let f = |c: RawChild| c.path;
        if p(children.last()) {
            assert(front.filter(p).push(children.last()).map_values(f) =~= front.filter(
                p,
            ).map_values(f).push(children.last().path));
        }
    } else {
        assert(children.filter(p).map_values(|c: RawChild| c.path) =~= Seq::<String>::empty());
    }
}

/// The subfolders of a folder are all of its items that are known to be folders,
/// and no others, in the order of their names in lower case.
pub proof fn law_every_subfolder_is_listed(
    children: &Vec<RawChild>,
    r: Vec<String>,
    i: int,
    j: int,
)
    requires
        call_ensures(list_subdirs, (children,), r),
    ensures
        r@.to_multiset() == children@.filter(|c: RawChild| c.is_dir == Some(true)).map_values(
            |c: RawChild| c.path,
        ).to_multiset(),
        0 <= i < j < r@.len() && path::file_name_of(r@[i]@) is Some && path::file_name_of(r@[j]@)
            is Some ==> !text::text_lt(
            text::lowercase(path::file_name_of(r@[j]@)->0),
            text::lowercase(path::file_name_of(r@[i]@)->0),
        ),
{
    let dirs = folder_paths(children@);
    lemma_folder_paths(children@, |c: RawChild| c.is_dir == Some(true));
    lemma_subdir_order();
    sort::law_sort_permutes(dirs, subdir_order());
    sort::law_sort_orders(dirs, subdir_order());
    if 0 <= i < j < r@.len() {
        assert(!subdir_order()(r@[j], r@[i]));
    }
}

/// The attribute column has one letter for each attribute that is set, and none
/// for the others.
pub proof fn law_attributes_have_their_letters(e: &FsEntry, r: String)
    requires
        call_ensures(attribute_label, (e,), r),
    ensures
        r@.contains('R') <==> e.readonly,
        r@.contains('H') <==> e.hidden,
        r@.contains('S') <==> e.system,
        r@.contains('A') <==> e.archive,
        r@.len() <= 4,
{
    let a: int = if e.readonly {
        1
    } else {
        0
    };
    let b: int = a + if e.hidden {
        1int
    } else {
        0
    };
    let c: int = b + if e.system {
        1int
    } else {
        0
    };
    if e.readonly {
        assert(r@[0] == 'R');
    }
    if e.hidden {
        assert(r@[a] == 'H');
    }
    if e.system {
        assert(r@[b] == 'S');
    }
    if e.archive {
        assert(r@[c] == 'A');
    }
}

/// `e` has the name, the kind, the size and the time that the file system
/// reports of an item.
pub open spec fn reports(raw: RawEntry, e: FsEntry) -> bool {
    &&& e.name@ == raw.name@ && e.path@ == raw.path@
    &&& e.is_dir == raw.is_dir && e.size == raw.size && e.modified == raw.modified
}

/// A listing has an entry for every item that the file system reports, and no
/// others, whatever their attributes are.
pub proof fn law_every_item_is_listed(raw: &Vec<RawEntry>, r: Vec<FsEntry>, i: int, k: int)
    requires
        call_ensures(list_dir, (raw,), r),
        0 <= i < raw@.len(),
        0 <= k < r@.len(),
    ensures
        r@.len() == raw@.len(),
        exists|j: int| 0 <= j < r@.len() && reports(raw@[i], #[trigger] r@[j]),
        exists|j: int| 0 <= j < raw@.len() && reports(#[trigger] raw@[j], r@[k]),
{
    broadcast use vstd::seq_lib::group_to_multiset_ensures;

    let s = choose|s: Seq<FsEntry>| #[trigger]
        shows_all(s, raw@) && r@ == sorted_entries(s, "name"@, true);
    law_sort_keeps_entries(s, "name"@, true);
    assert(shows(s[i], raw@[i]));
    assert(s.contains(s[i]));
    assert(r@.to_multiset().count(s[i]) > 0);
    assert(r@.contains(s[i]));
    assert(r@.contains(r@[k]));
    assert(s.to_multiset().count(r@[k]) > 0);
    assert(s.contains(r@[k]));
    let j = choose|j: int| 0 <= j < s.len() && s[j] == r@[k];
    assert(shows(s[j], raw@[j]));
    assert(reports(raw@[j], r@[k]));
}

} // verus!
