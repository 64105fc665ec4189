//! Icons of files: the key under which an icon is kept, the pixels of a
//! decoded icon, and which icons have yet to be loaded.

use crate::fs_entry::FsEntry;
use crate::path::extension;
use crate::text::{str_eq, to_lowercase};
use crate::{path, text};
use vstd::prelude::*;

verus! {

// ---------------------------------------------------------------------------
// Keys
// ---------------------------------------------------------------------------

/// Files with the extension `ext` carry an icon of their own.
pub open spec fn embeds_icon(ext: Seq<char>) -> bool {
    ext == "exe"@ || ext == "lnk"@ || ext == "ico"@
}

/// The key under which the icon of the file `p` is kept.
pub open spec fn icon_key(p: Seq<char>) -> Seq<char> {
    match path::extension_of(p) {
        Some(e) => if embeds_icon(text::lowercase(e)) {
            "path:"@ + text::lowercase(p)
        } else {
            "ext:"@ + text::lowercase(e)
        },
        None => "ext:"@,
    }
}

/// Cache key for a file's associated icon. Most file types resolve their
/// icon purely from the extension (one texture serves every `.txt`), but
/// exe-like formats embed an icon per binary: those are cached per full path.
pub fn file_icon_cache_key(p: &str) -> (r: String)
    ensures
        r@ == icon_key(p@),
{
    match extension(p) {
        Some(ext) => {
            let ext = to_lowercase(ext.as_str());
            if str_eq(ext.as_str(), "exe") || str_eq(ext.as_str(), "lnk") || str_eq(
                ext.as_str(),
                "ico",
            ) {
                let mut key = "path:".to_owned();
                key.append(to_lowercase(p).as_str());
                key
            } else {
                let mut key = "ext:".to_owned();
                key.append(ext.as_str());
                key
            }
        },
        None => "ext:".to_owned(),
    }
}

/// The extension of `p` in lower case; nothing where it has none.
pub open spec fn kind_of(p: Seq<char>) -> Seq<char> {
    match path::extension_of(p) {
        Some(e) => text::lowercase(e),
        None => Seq::empty(),
    }
}

proof fn lemma_key_by_kind(p: Seq<char>)
    ensures
        icon_key(p) == (if embeds_icon(kind_of(p)) {
            "path:"@ + text::lowercase(p)
        } else {
            "ext:"@ + kind_of(p)
        }),
{
    reveal_strlit("exe");
    reveal_strlit("lnk");
    reveal_strlit("ico");
    if path::extension_of(p) is None {
        assert("ext:"@ + kind_of(p) =~= "ext:"@);
    }
}

/// Files that carry no icon of their own share one exactly where their
/// extensions differ in letter case at most.
pub proof fn law_extension_decides(p: Seq<char>, q: Seq<char>)
    requires
        !embeds_icon(kind_of(p)),
        !embeds_icon(kind_of(q)),
    ensures
        icon_key(p) == "ext:"@ + kind_of(p),
        icon_key(p) == icon_key(q) <==> kind_of(p) == kind_of(q),
{
    reveal_strlit("ext:");
    lemma_key_by_kind(p);
    lemma_key_by_kind(q);
    let a = icon_key(p);
    let b = icon_key(q);
    assert(a.subrange(4, a.len() as int) =~= kind_of(p));
    assert(b.subrange(4, b.len() as int) =~= kind_of(q));
}

/// A file that carries its own icon shares its key with exactly those others
/// that carry theirs and whose path differs in letter case at most. No key that
/// is made from a path is one that is made from an extension.
pub proof fn law_embedded_icons_are_told_apart(p: Seq<char>, q: Seq<char>)
    requires
        embeds_icon(kind_of(p)),
    ensures
        icon_key(p) == icon_key(q) <==> embeds_icon(kind_of(q)) && text::lowercase(p)
            == text::lowercase(q),
{
    reveal_strlit("path:");
    reveal_strlit("ext:");
    lemma_key_by_kind(p);
    lemma_key_by_kind(q);
    let a = icon_key(p);
    let b = icon_key(q);
    assert(a.subrange(5, a.len() as int) =~= text::lowercase(p));
    if embeds_icon(kind_of(q)) {
        assert(b.subrange(5, b.len() as int) =~= text::lowercase(q));
    } else {
        assert(a[0] == 'p' && b[0] == 'e');
    }
}

// ---------------------------------------------------------------------------
// Pixels
// ---------------------------------------------------------------------------

/// The side of an icon that is read is at most this long.
pub const MAX_ICON_SIDE: usize = 256;

/// The number of bytes that a decoded icon of `width` times `height` pixels
/// takes; nothing where a side is not between 1 and 256.
pub fn icon_buffer_len(width: i32, height: i32) -> (r: Option<usize>)
    ensures
        r == (if 1 <= width <= MAX_ICON_SIDE && 1 <= height <= MAX_ICON_SIDE {
            Some((width * height * 4) as usize)
        } else {
            None
        }),
{
    if width < 1 || height < 1 || width > 256 || height > 256 {
        None
    } else {
        assert(1 <= width * height <= 256 * 256) by (nonlinear_arith)
            requires
                1 <= width <= 256,
                1 <= height <= 256,
        ;
        let area: i32 = width * height;
        Some((area * 4) as usize)
    }
}

/// Pixel `k` of `s` is not fully transparent.
pub open spec fn opaque_at(s: Seq<u8>, k: int) -> bool {
    0 <= k < s.len() / 4 && s[4 * k + 3] != 0
}

/// Some pixel of `s` is not fully transparent.
pub open spec fn any_alpha(s: Seq<u8>) -> bool {
    exists|k: int| opaque_at(s, k)
}

/// True if any pixel in `rgba` has a non-zero alpha byte.
pub fn has_any_alpha(rgba: &Vec<u8>) -> (r: bool)
    ensures
        r == any_alpha(rgba@),
{
    let n: usize = rgba.len() / 4;
    let mut k: usize = 0;
    while k < n
        invariant
            n == rgba.len() / 4,
            k <= n,
            forall|j: int| 0 <= j < k ==> !opaque_at(rgba@, j),
        decreases n - k,
    {
        if rgba[4 * k + 3] != 0 {
            assert(opaque_at(rgba@, k as int));
            return true;
        }
        assert(!opaque_at(rgba@, k as int));
        k = k + 1;
    }
    false
}

/// What byte `i` of a decoded icon becomes: the first and third byte of a
/// pixel change places, and the fourth becomes 255 where `fill` asks for it.
/// Bytes behind the last whole pixel stay.
pub open spec fn finished_byte(s: Seq<u8>, fill: bool, i: int) -> u8 {
    if i >= s.len() / 4 * 4 {
        s[i]
    } else if i % 4 == 0 {
        s[i + 2]
    } else if i % 4 == 2 {
        s[i - 2]
    } else if i % 4 == 3 && fill {
        255
    } else {
        s[i]
    }
}

/// The pixels of a decoded icon as they are shown. An icon without any alpha
/// is made opaque.
pub open spec fn finished(s: Seq<u8>) -> Seq<u8> {
    Seq::new(s.len(), |i: int| finished_byte(s, !any_alpha(s), i))
}

/// Turns decoded BGRA pixels into RGBA. Legacy icons carry no alpha channel:
/// they are treated as fully opaque.
pub fn finish_pixels(rgba: &mut Vec<u8>)
    ensures
        final(rgba)@ == finished(old(rgba)@),
{
    let fill: bool = !has_any_alpha(rgba);
    let n: usize = rgba.len() / 4;
    let ghost start = rgba@;
    let mut k: usize = 0;
    while k < n
        invariant
            n == start.len() / 4,
            k <= n,
            rgba.len() == start.len(),
            forall|i: int| 0 <= i < 4 * k ==> rgba@[i] == finished_byte(start, fill, i),
            forall|i: int| 4 * k <= i < start.len() ==> rgba@[i] == start[i],
        decreases n - k,
    {
        let ghost was = rgba@;
        let first: u8 = rgba[4 * k];
        let third: u8 = rgba[4 * k + 2];
        rgba.set(4 * k, third);
        rgba.set(4 * k + 2, first);
        if fill {
            rgba.set(4 * k + 3, 255);
        }
        proof {
            let at = 4 * k as int;
            assert(rgba@[at] == finished_byte(start, fill, at));
            assert(rgba@[at + 1] == finished_byte(start, fill, at + 1));
            assert(rgba@[at + 2] == finished_byte(start, fill, at + 2));
            assert(rgba@[at + 3] == finished_byte(start, fill, at + 3));
            assert forall|i: int| 0 <= i < at + 4 implies rgba@[i] == finished_byte(
                start,
                fill,
                i,
            ) by {
                if i < at {
                    assert(rgba@[i] == was[i]);
                }
            }
        }
        k = k + 1;
    }
    assert(rgba@ =~= finished(start));
}

/// A finished icon of at least one pixel is visible.
pub proof fn law_finished_icons_are_visible(s: Seq<u8>)
    requires
        s.len() >= 4,
    ensures
        any_alpha(finished(s)),
{
    let t = finished(s);
    if any_alpha(s) {
        let k = choose|k: int| opaque_at(s, k);
        assert(t[4 * k + 3] == s[4 * k + 3]);
        assert(opaque_at(t, k));
    } else {
        assert(t[3] == 255);
        assert(opaque_at(t, 0));
    }
}

// ---------------------------------------------------------------------------
// The cache
// ---------------------------------------------------------------------------

/// The outcome of loading one icon.
#[derive(Debug, PartialEq, Eq)]
pub struct IconRow {
    pub key: String,
    /// The loaded icon; nothing where it could not be loaded.
    pub icon: Option<usize>,
}

/// The icons that were asked for so far, by key. Failures are kept as well,
/// so that they are not tried again in every frame.
#[derive(Debug, PartialEq, Eq)]
pub struct IconCache {
    rows: Vec<IconRow>,
}

/// An icon that has yet to be loaded.
#[derive(Debug, PartialEq, Eq)]
pub struct IconRequest {
    pub key: String,
    pub path: String,
}

/// The outcomes by key.
pub open spec fn row_outcomes(rows: Seq<IconRow>) -> Map<Seq<char>, Option<usize>>
    decreases rows.len(),
{
    if rows.len() == 0 {
        Map::empty()
    } else {
        row_outcomes(rows.drop_last()).insert(rows.last().key@, rows.last().icon)
    }
}

/// The key and the path of each icon that `entries` need and that is not among
/// `known`: the first file of each key, in the order of `entries`.
pub open spec fn missing(known: Set<Seq<char>>, entries: Seq<FsEntry>) -> Seq<
    (Seq<char>, Seq<char>),
>
    decreases entries.len(),
{
    if entries.len() == 0 {
        Seq::empty()
    } else {
        let before = missing(known, entries.drop_last());
        let e = entries.last();
        let key = icon_key(e.path@);
        if e.is_dir || known.contains(key) || (exists|i: int|
            0 <= i < before.len() && (#[trigger] before[i]).0 == key) {
            before
        } else {
            before.push((key, e.path@))
        }
    }
}

/// The icon that is shown beside `e`: none beside a folder.
pub open spec fn icon_of(known: Map<Seq<char>, Option<usize>>, e: FsEntry) -> Option<usize> {
    let key = icon_key(e.path@);
    if e.is_dir || !known.contains_key(key) {
        None
    } else {
        known[key]
    }
}

/// A request by its texts.
pub open spec fn request_view(r: IconRequest) -> (Seq<char>, Seq<char>) {
    (r.key@, r.path@)
}

impl View for IconCache {
    type V = Map<Seq<char>, Option<usize>>;

    closed spec fn view(&self) -> Map<Seq<char>, Option<usize>> {
        row_outcomes(self.rows@)
    }
}

impl IconCache {
    /// A cache that holds nothing yet.
    pub fn new() -> (r: Self)
        ensures
            r@ == Map::<Seq<char>, Option<usize>>::empty(),
    {
        IconCache { rows: Vec::new() }
    }

    /// The outcome kept under `key`.
    pub fn get(&self, key: &str) -> (r: Option<Option<usize>>)
        ensures
            r == (if self@.contains_key(key@) {
                Some(self@[key@])
            } else {
                None
            }),
    {
        let mut i: usize = self.rows.len();
        assert(self.rows@.subrange(0, i as int) =~= self.rows@);
        while i > 0
            invariant
                i <= self.rows@.len(),
                self@.contains_key(key@) == row_outcomes(
                    self.rows@.subrange(0, i as int),
                ).contains_key(key@),
                self@.contains_key(key@) ==> self@[key@] == row_outcomes(
                    self.rows@.subrange(0, i as int),
                )[key@],
            decreases i,
        {
            i = i - 1;
            proof {
                let upto = self.rows@.subrange(0, i + 1);
                assert(upto.drop_last() =~= self.rows@.subrange(0, i as int));
                assert(upto.last() == self.rows@[i as int]);
            }
            if str_eq(self.rows[i].key.as_str(), key) {
                return Some(self.rows[i].icon);
            }
        }
        assert(row_outcomes(self.rows@.subrange(0, 0)) == Map::<
            Seq<char>,
            Option<usize>,
        >::empty());
        None
    }

    /// Keeps the outcome of loading the icon for `key`.
    pub fn insert(&mut self, key: String, icon: Option<usize>)
        ensures
            final(self)@ == old(self)@.insert(key@, icon),
    {
        self.rows.push(IconRow { key, icon });
        assert(self.rows@.drop_last() =~= old(self).rows@);
    }

    /// The icons that have to be loaded before `entries` can be shown.
    pub fn wanted(&self, entries: &Vec<FsEntry>) -> (r: Vec<IconRequest>)
        ensures
            r@.map_values(|q: IconRequest| request_view(q)) == missing(self@.dom(), entries@),
    {
        let mut r: Vec<IconRequest> = Vec::new();
        let mut i: usize = 0;
        assert(entries@.subrange(0, 0) =~= Seq::<FsEntry>::empty());
        assert(r@.map_values(|q: IconRequest| request_view(q)) =~= Seq::<
            (Seq<char>, Seq<char>),
        >::empty());
        while i < entries.len()
            invariant
                i <= entries@.len(),
                r@.map_values(|q: IconRequest| request_view(q)) == missing(
                    self@.dom(),
                    entries@.subrange(0, i as int),
                ),
            decreases entries@.len() - i,
        {
            let ghost before = r@.map_values(|q: IconRequest| request_view(q));
            proof {
                let upto = entries@.subrange(0, i + 1);
                assert(upto.drop_last() =~= entries@.subrange(0, i as int));
                assert(upto.last() == entries@[i as int]);
            }
            if !entries[i].is_dir {
                let key = file_icon_cache_key(entries[i].path.as_str());
                if self.get(key.as_str()).is_none() {
                    let mut found: bool = false;
                    let mut j: usize = 0;
                    while j < r.len() && !found
                        invariant
                            j <= r@.len(),
                            before == r@.map_values(|q: IconRequest| request_view(q)),
                            found == (exists|k: int|
                                0 <= k < j && (#[trigger] before[k]).0 == key@),
                        decreases r@.len() - j,
                    {
                        assert(before[j as int].0 == r@[j as int].key@);
                        found = str_eq(r[j].key.as_str(), key.as_str());
                        j = j + 1;
                    }
                    if !found {
                        r.push(IconRequest { key, path: entries[i].path.clone() });
                        assert(r@.map_values(|q: IconRequest| request_view(q)) =~= before.push(
                            request_view(r@.last()),
                        ));
                    }
                }
            }
            i = i + 1;
        }
        assert(entries@.subrange(0, entries@.len() as int) =~= entries@);
        r
    }

    /// One slot per entry: nothing for folders and for files whose icon could
    /// not be resolved.
    pub fn ensure_entry_icons(&self, entries: &Vec<FsEntry>) -> (r: Vec<Option<usize>>)
        ensures
            r@ == Seq::new(entries@.len(), |i: int| icon_of(self@, entries@[i])),
    {
        let mut r: Vec<Option<usize>> = Vec::new();
        let mut i: usize = 0;
        while i < entries.len()
            invariant
                i <= entries@.len(),
                r@.len() == i,
                forall|j: int| 0 <= j < i ==> r@[j] == icon_of(self@, #[trigger] entries@[j]),
            decreases entries@.len() - i,
        {
            let slot: Option<usize> = if entries[i].is_dir {
                None
            } else {
                let key = file_icon_cache_key(entries[i].path.as_str());
                match self.get(key.as_str()) {
                    Some(icon) => icon,
                    None => None,
                }
            };
            r.push(slot);
            i = i + 1;
        }
        r
    }
}

/// Once every missing icon has been tried, none is missing any more.
pub proof fn law_tried_icons_are_not_asked_for_again(
    known: Set<Seq<char>>,
    tried: Set<Seq<char>>,
    entries: Seq<FsEntry>,
)
    requires
        known.subset_of(tried),
        forall|i: int|
            0 <= i < missing(known, entries).len() ==> tried.contains(
                (#[trigger] missing(known, entries)[i]).0,
            ),
    ensures
        missing(tried, entries) == Seq::<(Seq<char>, Seq<char>)>::empty(),
    decreases entries.len(),
{
    if entries.len() > 0 {
        let before = missing(known, entries.drop_last());
        let all = missing(known, entries);
        assert forall|i: int| 0 <= i < before.len() implies tried.contains(
            (#[trigger] before[i]).0,
        ) by {
            assert(all[i] == before[i]);
        }
        law_tried_icons_are_not_asked_for_again(known, tried, entries.drop_last());
        let e = entries.last();
        let key = icon_key(e.path@);
        if !e.is_dir && !known.contains(key) {
            if exists|i: int| 0 <= i < before.len() && (#[trigger] before[i]).0 == key {
            } else {
                assert(all[all.len() - 1].0 == key);
            }
        }
    }
}

proof fn lemma_missing(known: Set<Seq<char>>, entries: Seq<FsEntry>, k: int)
    requires
        0 <= k < entries.len(),
    ensures
        ({
            let asked = missing(known, entries);
            let key = icon_key(entries[k].path@);
            !entries[k].is_dir && !known.contains(key) ==> exists|i: int|
                0 <= i < asked.len() && (#[trigger] asked[i]).0 == key
        }),
    decreases entries.len(),
{
    let front = entries.drop_last();
    let before = missing(known, front);
    let asked = missing(known, entries);
    let key = icon_key(entries[k].path@);
    assert(asked.len() >= before.len());
    assert(forall|i: int| 0 <= i < before.len() ==> asked[i] == before[i]);
    if !entries[k].is_dir && !known.contains(key) {
        if k < front.len() {
            lemma_missing(known, front, k);
            assert(front[k] == entries[k]);
        }
        if exists|i: int| 0 <= i < before.len() && (#[trigger] before[i]).0 == key {
            let i = choose|i: int| 0 <= i < before.len() && (#[trigger] before[i]).0 == key;
            assert(asked[i] == before[i]);
        } else {
            assert(asked[before.len() as int].0 == key);
        }
    }
}

proof fn lemma_asked(known: Set<Seq<char>>, entries: Seq<FsEntry>, i: int)
    requires
        0 <= i < missing(known, entries).len(),
    ensures
        ({
            let q = missing(known, entries)[i];
            &&& !known.contains(q.0)
            &&& exists|k: int|
                0 <= k < entries.len() && !(#[trigger] entries[k]).is_dir && q.1 == entries[k].path@
                    && q.0 == icon_key(entries[k].path@)
            &&& forall|j: int| 0 <= j < i ==> (#[trigger] missing(known, entries)[j]).0 != q.0
        }),
    decreases entries.len(),
{
    if entries.len() > 0 {
        let front = entries.drop_last();
        let before = missing(known, front);
        let asked = missing(known, entries);
        assert(forall|j: int| 0 <= j < before.len() ==> asked[j] == before[j]);
        if i < before.len() {
            lemma_asked(known, front, i);
            let k = choose|k: int|
                0 <= k < front.len() && !(#[trigger] front[k]).is_dir && before[i].1
                    == front[k].path@ && before[i].0 == icon_key(front[k].path@);
            assert(entries[k] == front[k]);
        } else {
            assert(entries[entries.len() - 1] == entries.last());
        }
    }
}

/// An icon is asked for wherever a file has none yet: once for all files that
/// share it, by the path of one of them, and never for folders or for what was
/// tried before.
pub proof fn law_missing_icons_are_asked_for_once(
    c: IconCache,
    entries: &Vec<FsEntry>,
    r: Vec<IconRequest>,
    k: int,
    i: int,
)
    requires
        call_ensures(IconCache::wanted, (&c, entries), r),
        0 <= k < entries@.len(),
        0 <= i < r@.len(),
    ensures
        !entries@[k].is_dir && !c@.contains_key(icon_key(entries@[k].path@)) ==> exists|j: int|
            0 <= j < r@.len() && (#[trigger] r@[j]).key@ == icon_key(entries@[k].path@),
        !c@.contains_key(r@[i].key@),
        exists|j: int|
            0 <= j < entries@.len() && !(#[trigger] entries@[j]).is_dir && r@[i].path@
                == entries@[j].path@ && r@[i].key@ == icon_key(entries@[j].path@),
        forall|j: int| 0 <= j < i ==> (#[trigger] r@[j]).key@ != r@[i].key@,
{
    let asked = missing(c@.dom(), entries@);
    let views = r@.map_values(|q: IconRequest| request_view(q));
    assert(views == asked);
    assert(forall|j: int| 0 <= j < r@.len() ==> asked[j] == ((#[trigger] r@[j]).key@, r@[j].path@))
        by {
        assert(forall|j: int| 0 <= j < r@.len() ==> views[j] == request_view(#[trigger] r@[j]));
    }
    lemma_missing(c@.dom(), entries@, k);
    lemma_asked(c@.dom(), entries@, i);
    let key = icon_key(entries@[k].path@);
    if exists|j: int| 0 <= j < asked.len() && (#[trigger] asked[j]).0 == key {
        let j = choose|j: int| 0 <= j < asked.len() && (#[trigger] asked[j]).0 == key;
        assert(r@[j].key@ == key);
    }
}

/// Every file is shown with the icon that its key was answered with, every
/// folder without one.
pub proof fn law_files_show_their_icon(
    c: IconCache,
    entries: &Vec<FsEntry>,
    r: Vec<Option<usize>>,
    k: int,
)
    requires
        call_ensures(IconCache::ensure_entry_icons, (&c, entries), r),
        0 <= k < entries@.len(),
    ensures
        r@.len() == entries@.len(),
        entries@[k].is_dir ==> r@[k] is None,
        !entries@[k].is_dir && c@.contains_key(icon_key(entries@[k].path@)) ==> r@[k]
            == c@[icon_key(entries@[k].path@)],
        !c@.contains_key(icon_key(entries@[k].path@)) ==> r@[k] is None,
{
}

/// Finishing the pixels of an icon exchanges red and blue in each of them and
/// leaves green; where no pixel shows, all of them do afterwards, and else each
/// shows as much as before.
pub proof fn law_pixels_are_put_in_order(k: int)
    ensures
        forall|v: &mut Vec<u8>|
            #[trigger] call_ensures(finish_pixels, (v,), ()) && 0 <= k < v@.len() / 4 ==> {
                let n = final(v)@;
                &&& n.len() == v@.len()
                &&& n[4 * k] == v@[4 * k + 2] && n[4 * k + 2] == v@[4 * k] && n[4 * k + 1] == v@[4
                    * k + 1]
                &&& v@[4 * k + 3] != 0 ==> n[4 * k + 3] == v@[4 * k + 3]
                &&& (forall|j: int| 0 <= j < v@.len() / 4 ==> #[trigger] v@[4 * j + 3] == 0) ==> n[4
                    * k + 3] == 255
            },
{
    assert forall|v: &mut Vec<u8>|
        #[trigger] call_ensures(finish_pixels, (v,), ()) && 0 <= k < v@.len() / 4 implies {
        let n = final(v)@;
        &&& n.len() == v@.len()
        &&& n[4 * k] == v@[4 * k + 2] && n[4 * k + 2] == v@[4 * k] && n[4 * k + 1] == v@[4 * k + 1]
        &&& v@[4 * k + 3] != 0 ==> n[4 * k + 3] == v@[4 * k + 3]
        &&& (forall|j: int| 0 <= j < v@.len() / 4 ==> #[trigger] v@[4 * j + 3] == 0) ==> n[4 * k
            + 3] == 255
    } by {
        if v@[4 * k + 3] != 0 {
            assert(opaque_at(v@, k));
        }
    }
}

/// Icons are read up to a side of 256 pixels, four bytes for each pixel.
pub proof fn law_icons_have_four_bytes_a_pixel(width: i32, height: i32, r: Option<usize>)
    requires
        call_ensures(icon_buffer_len, (width, height), r),
    ensures
        r is Some <==> 1 <= width <= 256 && 1 <= height <= 256,
        r is Some ==> r->0 == width * height * 4,
{
    if 1 <= width <= 256 && 1 <= height <= 256 {
        assert(0 < width * height <= 65536) by (nonlinear_arith)
            requires
                1 <= width <= 256,
                1 <= height <= 256,
        ;
    }
}

} // verus!
