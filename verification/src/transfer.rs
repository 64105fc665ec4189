//! Pasting and dropping: which items are taken along, which of them collide
//! with what is there, and how the collisions are settled.

use crate::fs_ops::ClipboardOp;
use crate::path::{extension, file_name, file_stem, is_same_path, join, parent};
use crate::progress::TransferItem;
use crate::text::{str_eq, u64_to_string, usize_to_string};
use crate::{path, session, text};
use vstd::prelude::*;

verus! {

// ---------------------------------------------------------------------------
// The clipboard
// ---------------------------------------------------------------------------

/// The paths on the clipboard as text, one to a line.
pub fn clipboard_text(paths: &Vec<String>) -> (r: String)
    ensures
        r@ == text::joined(text::texts(paths@), "\n"@),
{
    text::join(paths, "\n")
}

/// Cutting `src` into `dest` would put it where it already is.
pub open spec fn already_there(src: Seq<char>, dest: Seq<char>, op: Option<ClipboardOp>) -> bool {
    op == Some(ClipboardOp::Cut) && (path::parent_of(src) matches Some(up) && path::same_path(
        up,
        dest,
    ))
}

/// The paths among `clipboard` that a paste into `dest` takes along.
pub open spec fn pasted(
    clipboard: Seq<Seq<char>>,
    dest: Seq<char>,
    op: Option<ClipboardOp>,
) -> Seq<Seq<char>>
    decreases clipboard.len(),
{
    if clipboard.len() == 0 {
        Seq::empty()
    } else {
        let before = pasted(clipboard.drop_last(), dest, op);
        if already_there(clipboard.last(), dest, op) {
            before
        } else {
            before.push(clipboard.last())
        }
    }
}

/// The items that a paste into `dest` takes along: all but those that are cut
/// into the folder they already live in.
pub fn paste_items(clipboard: &Vec<String>, dest: &str, op: Option<ClipboardOp>) -> (r: Vec<String>)
    ensures
        text::texts(r@) == pasted(text::texts(clipboard@), dest@, op),
{
    let mut r: Vec<String> = Vec::new();
    let mut i: usize = 0;
    let ghost all = text::texts(clipboard@);
    assert(text::texts(r@) =~= pasted(all.subrange(0, 0), dest@, op));
    let cut: bool = match op {
        Some(ClipboardOp::Cut) => true,
        _ => false,
    };
    while i < clipboard.len()
        invariant
            i <= clipboard.len(),
            all == text::texts(clipboard@),
            cut == (op == Some(ClipboardOp::Cut)),
            text::texts(r@) == pasted(all.subrange(0, i as int), dest@, op),
        decreases clipboard.len() - i,
    {
        proof {
            let upto = all.subrange(0, i + 1);
            assert(upto.drop_last() =~= all.subrange(0, i as int));
            assert(upto.last() == clipboard@[i as int]@);
        }
        let stays: bool = cut && match parent(clipboard[i].as_str()) {
            Some(up) => is_same_path(up.as_str(), dest),
            None => false,
        };
        if !stays {
            let ghost was = text::texts(r@);
            r.push(clipboard[i].clone());
            assert(text::texts(r@) =~= was.push(clipboard@[i as int]@));
        }
        i = i + 1;
    }
    assert(all.subrange(0, all.len() as int) =~= all);
    r
}

/// A copy takes everything along.
pub proof fn law_copies_take_everything(clipboard: Seq<Seq<char>>, dest: Seq<char>)
    ensures
        pasted(clipboard, dest, Some(ClipboardOp::Copy)) == clipboard,
    decreases clipboard.len(),
{
    if clipboard.len() > 0 {
        law_copies_take_everything(clipboard.drop_last(), dest);
        assert(clipboard.drop_last().push(clipboard.last()) =~= clipboard);
    } else {
        assert(clipboard =~= Seq::<Seq<char>>::empty());
    }
}

// ---------------------------------------------------------------------------
// Collisions
// ---------------------------------------------------------------------------

/// Where `src` lands in `dest` under its own name.
pub open spec fn landing(src: Seq<char>, dest: Seq<char>) -> Option<Seq<char>> {
    match path::file_name_of(src) {
        Some(n) => Some(path::joined_path(dest, n)),
        None => None,
    }
}

/// `answer` tells whether `src` collides with an item in `dest`.
pub open spec fn collision_answered<F: Fn(&String) -> bool>(
    src: Seq<char>,
    dest: Seq<char>,
    on_disk: F,
    answer: bool,
) -> bool {
    match landing(src, dest) {
        Some(p) => session::answered(on_disk, p, answer),
        None => !answer,
    }
}

/// The members of `s` whose answer is `which`, in order.
pub open spec fn picked<T>(s: Seq<T>, answers: Seq<bool>, which: bool) -> Seq<T>
    decreases s.len(),
{
    if s.len() == 0 {
        Seq::empty()
    } else {
        let before = picked(s.drop_last(), answers, which);
        if answers[s.len() - 1] == which {
            before.push(s.last())
        } else {
            before
        }
    }
}

/// The sources of `items`.
pub open spec fn sources(items: Seq<TransferItem>) -> Seq<Seq<char>> {
    items.map_values(|t: TransferItem| t.src@)
}

/// Every one of `items` keeps its name and overwrites nothing.
pub open spec fn all_plain(items: Seq<TransferItem>) -> bool {
    forall|i: int|
        0 <= i < items.len() ==> (#[trigger] items[i]).dest_name is None && !items[i].overwrite
}

/// Items on their way into a folder: those that collide with what is there, and
/// those that are settled.
#[derive(Debug, PartialEq, Eq)]
pub struct Sorted {
    pub conflicts: Vec<String>,
    pub resolved: Vec<TransferItem>,
}

/// `answers` say of each of `items` whether it collides with an item in `dest`.
pub open spec fn collisions_answered<F: Fn(&String) -> bool>(
    items: Seq<Seq<char>>,
    dest: Seq<char>,
    on_disk: F,
    answers: Seq<bool>,
) -> bool {
    answers.len() == items.len() && forall|i: int|
        0 <= i < items.len() ==> collision_answered(
            #[trigger] items[i],
            dest,
            on_disk,
            answers[i],
        )
}

pub(crate) proof fn lemma_picked_reads_only_its_answers<T>(
    s: Seq<T>,
    a: Seq<bool>,
    b: Seq<bool>,
    which: bool,
)
    requires
        a.len() >= s.len(),
        b.len() >= s.len(),
        forall|i: int| 0 <= i < s.len() ==> a[i] == b[i],
    ensures
        picked(s, a, which) == picked(s, b, which),
    decreases s.len(),
{
    if s.len() > 0 {
        lemma_picked_reads_only_its_answers(s.drop_last(), a, b, which);
    }
}

/// Tells the items that collide with what is in `dest` from the others.
pub fn sort_out<F: Fn(&String) -> bool>(items: Vec<String>, dest: &str, on_disk: &F) -> (r: Sorted)
    requires
        forall|s: &String| call_requires(*on_disk, (s,)),
    ensures
        all_plain(r.resolved@),
        exists|answers: Seq<bool>|
            {
                &&& #[trigger] collisions_answered(
                    text::texts(items@),
                    dest@,
                    *on_disk,
                    answers,
                )
                &&& text::texts(r.conflicts@) == picked(text::texts(items@), answers, true)
                &&& sources(r.resolved@) == picked(text::texts(items@), answers, false)
            },
{
    let ghost all = text::texts(items@);
    let mut conflicts: Vec<String> = Vec::new();
    let mut resolved: Vec<TransferItem> = Vec::new();
    let ghost mut answers: Seq<bool> = Seq::empty();
    assert(text::texts(conflicts@) =~= picked(all.subrange(0, 0), answers, true));
    assert(sources(resolved@) =~= picked(all.subrange(0, 0), answers, false));
    for src in it: items
        invariant
            it.seq() == items@,
            all == text::texts(items@),
            forall|s: &String| call_requires(*on_disk, (s,)),
            all_plain(resolved@),
            collisions_answered(
                all.subrange(0, it.index() as int),
                dest@,
                *on_disk,
                answers,
            ),
            text::texts(conflicts@) == picked(
                all.subrange(0, it.index() as int),
                answers,
                true,
            ),
            sources(resolved@) == picked(all.subrange(0, it.index() as int), answers, false),
    {
        let ghost i = it.index() as int;
        let ghost sv = src@;
        let collides: bool = match file_name(src.as_str()) {
            Some(name) => {
                let there = join(dest, name.as_str());
                let taken: bool = on_disk(&there);
                assert(session::answered(*on_disk, there@, taken));
                taken
            },
            None => false,
        };
        let ghost grown = answers.push(collides);
        proof {
            let upto = all.subrange(0, i + 1);
            let before = all.subrange(0, i);
            assert(upto.drop_last() =~= before);
            assert(upto.last() == sv);
            lemma_picked_reads_only_its_answers(before, answers, grown, true);
            lemma_picked_reads_only_its_answers(before, answers, grown, false);
            assert forall|k: int| 0 <= k < upto.len() implies collision_answered(
                #[trigger] upto[k],
                dest@,
                *on_disk,
                grown[k],
            ) by {
                if k < i {
                    assert(upto[k] == before[k]);
                }
            }
            answers = grown;
        }
        if collides {
            let ghost was = text::texts(conflicts@);
            conflicts.push(src);
            assert(text::texts(conflicts@) =~= was.push(sv));
        } else {
            let ghost was = sources(resolved@);
            resolved.push(TransferItem::plain(src));
            assert(sources(resolved@) =~= was.push(sv));
        }
    }
    assert(all.subrange(0, all.len() as int) =~= all);
    assert(collisions_answered(all, dest@, *on_disk, answers));
    Sorted { conflicts, resolved }
}

/// No item is lost: each one either collides or is settled.
pub proof fn law_every_item_is_sorted<T>(s: Seq<T>, answers: Seq<bool>)
    requires
        answers.len() == s.len(),
    ensures
        picked(s, answers, true).len() + picked(s, answers, false).len() == s.len(),
        forall|x: T|
            s.contains(x) ==> picked(s, answers, true).contains(x) || picked(
                s,
                answers,
                false,
            ).contains(x),
    decreases s.len(),
{
    if s.len() > 0 {
        let front = s.drop_last();
        let short = answers.drop_last();
        law_every_item_is_sorted(front, short);
        lemma_picked_reads_only_its_answers(front, short, answers, true);
        lemma_picked_reads_only_its_answers(front, short, answers, false);
        let yes = picked(s, answers, true);
        let no = picked(s, answers, false);
        let yes0 = picked(front, answers, true);
        let no0 = picked(front, answers, false);
        assert forall|x: T| s.contains(x) implies yes.contains(x) || no.contains(x) by {
            let k = choose|k: int| 0 <= k < s.len() && s[k] == x;
            if k < front.len() {
                assert(front[k] == x);
                assert(front.contains(x));
                if yes0.contains(x) {
                    let j = choose|j: int| 0 <= j < yes0.len() && yes0[j] == x;
                    assert(yes[j] == x);
                } else {
                    let j = choose|j: int| 0 <= j < no0.len() && no0[j] == x;
                    assert(no[j] == x);
                }
            } else if answers[s.len() - 1] {
                assert(yes[yes.len() - 1] == x);
            } else {
                assert(no[no.len() - 1] == x);
            }
        }
    }
}

// ---------------------------------------------------------------------------
// Names that keep both items
// ---------------------------------------------------------------------------

/// The part of the name of `src` in front of its extension.
pub open spec fn stem_of(src: Seq<char>) -> Seq<char> {
    match path::file_stem_of(src) {
        Some(s) => s,
        None => "Copy"@,
    }
}

/// The extension of `src` with its dot, or nothing.
pub open spec fn dotted_extension_of(src: Seq<char>) -> Seq<char> {
    match path::extension_of(src) {
        Some(e) => "."@ + e,
        None => ""@,
    }
}

/// The name with number `k` that a copy of `src` may get: `name (copy).ext`,
/// then `name (2).ext`, `name (3).ext` and so on.
pub open spec fn copy_name(src: Seq<char>, k: nat) -> Seq<char> {
    if k <= 1 {
        stem_of(src) + " (copy)"@ + dotted_extension_of(src)
    } else {
        stem_of(src) + " ("@ + text::decimal(k) + ")"@ + dotted_extension_of(src)
    }
}

/// The name with number `k` cannot be used: something of that name exists, or
/// it is taken.
pub open spec fn name_occupied<F: Fn(&String) -> bool>(
    dest: Seq<char>,
    src: Seq<char>,
    taken: Set<Seq<char>>,
    on_disk: F,
    k: nat,
) -> bool {
    session::answered(on_disk, path::joined_path(dest, copy_name(src, k)), true) || taken.contains(
        copy_name(src, k),
    )
}

/// `name` is the first name for a copy of `src` that is free in `dest` and not
/// among `taken`.
pub open spec fn free_copy_name<F: Fn(&String) -> bool>(
    dest: Seq<char>,
    src: Seq<char>,
    taken: Set<Seq<char>>,
    on_disk: F,
    name: Seq<char>,
) -> bool {
    exists|k: nat|
        {
            &&& k >= 1
            &&& name == #[trigger] copy_name(src, k)
            &&& session::answered(on_disk, path::joined_path(dest, name), false)
            &&& !taken.contains(name)
            &&& forall|j: nat|
                1 <= j < k ==> #[trigger] name_occupied(dest, src, taken, on_disk, j)
        }
}

fn list_contains(list: &Vec<String>, name: &str) -> (r: bool)
    ensures
        r == text::texts(list@).to_set().contains(name@),
{
    let mut i: usize = 0;
    while i < list.len()
        invariant
            i <= list.len(),
            forall|j: int| 0 <= j < i ==> #[trigger] text::texts(list@)[j] != name@,
        decreases list.len() - i,
    {
        if str_eq(list[i].as_str(), name) {
            assert(text::texts(list@)[i as int] == name@);
            return true;
        }
        assert(text::texts(list@)[i as int] != name@);
        i = i + 1;
    }
    false
}

fn copy_name_text(stem: &str, ext: &str, k: u32, Ghost(src): Ghost<Seq<char>>) -> (r: String)
    requires
        stem@ == stem_of(src),
        ext@ == dotted_extension_of(src),
    ensures
        r@ == copy_name(src, k as nat),
{
    let mut r = stem.to_owned();
    if k <= 1 {
        r.append(" (copy)");
    } else {
        r.append(" (");
        r.append(u64_to_string(k as u64).as_str());
        r.append(")");
    }
    r.append(ext);
    r
}

/// A free "keep both" name for `src` inside `dest_dir`, never colliding with the
/// file system or with the names in `taken`, to which it is added. Nothing
/// where all numbers of 32 bits are used up.
pub fn next_free_copy_name<F: Fn(&String) -> bool>(
    dest_dir: &str,
    src: &str,
    taken: &mut Vec<String>,
    on_disk: &F,
) -> (r: Option<String>)
    requires
        forall|s: &String| call_requires(*on_disk, (s,)),
    ensures
        match r {
            Some(name) => {
                &&& free_copy_name(
                    dest_dir@,
                    src@,
                    text::texts(old(taken)@).to_set(),
                    *on_disk,
                    name@,
                )
                &&& text::texts(final(taken)@) == text::texts(old(taken)@).push(name@)
            },
            None => {
                &&& *final(taken) == *old(taken)
                &&& forall|j: nat|
                    1 <= j <= u32::MAX ==> #[trigger] name_occupied(
                        dest_dir@,
                        src@,
                        text::texts(old(taken)@).to_set(),
                        *on_disk,
                        j,
                    )
            },
        },
{
    let stem = match file_stem(src) {
        Some(s) => s,
        None => "Copy".to_owned(),
    };
    let ext = match extension(src) {
        Some(e) => {
            let mut d = ".".to_owned();
            d.append(e.as_str());
            d
        },
        None => "".to_owned(),
    };
    let mut k: u32 = 1;
    let ghost before = text::texts(taken@);
    loop
        invariant
            1 <= k,
            forall|s: &String| call_requires(*on_disk, (s,)),
            stem@ == stem_of(src@),
            ext@ == dotted_extension_of(src@),
            *taken == *old(taken),
            before == text::texts(taken@),
            forall|j: nat|
                1 <= j < k ==> #[trigger] name_occupied(
                    dest_dir@,
                    src@,
                    before.to_set(),
                    *on_disk,
                    j,
                ),
        decreases u32::MAX - k,
    {
        let name = copy_name_text(stem.as_str(), ext.as_str(), k, Ghost(src@));
        let target = join(dest_dir, name.as_str());
        let there: bool = on_disk(&target);
        assert(session::answered(*on_disk, target@, there));
        if !there && !list_contains(taken, name.as_str()) {
            assert(free_copy_name(dest_dir@, src@, before.to_set(), *on_disk, name@)) by {
                assert(name@ == copy_name(src@, k as nat));
            }
            taken.push(name.clone());
            assert(text::texts(taken@) =~= before.push(name@));
            return Some(name);
        }
        assert(name_occupied(dest_dir@, src@, before.to_set(), *on_disk, k as nat));
        if k == u32::MAX {
            return None;
        }
        k = k + 1;
    }
}

/// The names that a copy may get all differ, so that the search for a free one
/// never tries the same name twice.
pub proof fn law_copy_names_differ(src: Seq<char>, j: nat, k: nat)
    requires
        2 <= j,
        2 <= k,
        j != k,
    ensures
        copy_name(src, j) != copy_name(src, k),
{
    if copy_name(src, j) == copy_name(src, k) {
        let head = stem_of(src) + " ("@;
        let tail = ")"@ + dotted_extension_of(src);
        let a = copy_name(src, j);
        let b = copy_name(src, k);
        assert(a =~= head + text::decimal(j) + tail);
        assert(b =~= head + text::decimal(k) + tail);
        assert(text::decimal(j).len() == text::decimal(k).len());
        let n = head.len() as int;
        let m = n + text::decimal(j).len();
        assert(a.subrange(n, m) =~= text::decimal(j));
        assert(b.subrange(n, m) =~= text::decimal(k));
        text::lemma_decimal_injective(j, k);
    }
}

// ---------------------------------------------------------------------------
// Settling collisions
// ---------------------------------------------------------------------------

/// A batch with collisions that the user has to settle.
#[derive(Debug, PartialEq, Eq)]
pub struct PasteConflict {
    pub dest_dir: String,
    pub op: Option<ClipboardOp>,
    /// The items still awaiting a decision.
    pub conflicts: Vec<String>,
    /// The items that are settled.
    pub resolved: Vec<TransferItem>,
}

/// The name that `item` takes up in the destination.
pub open spec fn claim(item: TransferItem) -> Seq<char> {
    match item.dest_name {
        Some(n) => n@,
        None => match path::file_name_of(item.src@) {
            Some(n) => n,
            None => ""@,
        },
    }
}

/// The names that `items` take up in the destination.
pub open spec fn claims(items: Seq<TransferItem>) -> Seq<Seq<char>> {
    items.map_values(|t: TransferItem| claim(t))
}

fn claimed_names(items: &Vec<TransferItem>) -> (r: Vec<String>)
    ensures
        text::texts(r@) == claims(items@),
{
    let mut r: Vec<String> = Vec::new();
    let mut i: usize = 0;
    while i < items.len()
        invariant
            i <= items.len(),
            r@.len() == i,
            forall|j: int| 0 <= j < i ==> (#[trigger] r@[j])@ == claim(items@[j]),
        decreases items.len() - i,
    {
        let name = match &items[i].dest_name {
            Some(n) => n.clone(),
            None => match file_name(items[i].src.as_str()) {
                Some(n) => n,
                None => "".to_owned(),
            },
        };
        r.push(name);
        i = i + 1;
    }
    assert(text::texts(r@) =~= claims(items@));
    r
}

/// `item` settles the collision of `src`, in a batch in which `before` is
/// settled already: it overwrites what is there, or lands under a free name.
pub open spec fn settles<F: Fn(&String) -> bool>(
    item: TransferItem,
    src: Seq<char>,
    dest: Seq<char>,
    before: Seq<TransferItem>,
    overwrite: bool,
    on_disk: F,
) -> bool {
    &&& item.src@ == src
    &&& item.overwrite == overwrite
    &&& if overwrite {
        item.dest_name is None
    } else {
        item.dest_name matches Some(n) && free_copy_name(
            dest,
            src,
            claims(before).to_set(),
            on_disk,
            n@,
        )
    }
}

/// The number of collisions that one decision settles.
pub open spec fn decided(conflicts: nat, apply_all: bool) -> nat {
    if apply_all {
        conflicts
    } else if conflicts > 0 {
        1
    } else {
        0
    }
}

/// No number of 32 bits makes a free name for a copy of `src`.
pub open spec fn nameless<F: Fn(&String) -> bool>(
    src: Seq<char>,
    dest: Seq<char>,
    before: Seq<TransferItem>,
    on_disk: F,
) -> bool {
    forall|j: nat|
        1 <= j <= u32::MAX ==> #[trigger] name_occupied(
            dest,
            src,
            claims(before).to_set(),
            on_disk,
            j,
        )
}

/// The first conflicts of `before` are decided: each in its turn has become an
/// item of the batch. Only an item that no name is left for holds the others
/// up.
pub open spec fn settled<F: Fn(&String) -> bool>(
    after: PasteConflict,
    before: PasteConflict,
    overwrite: bool,
    apply_all: bool,
    on_disk: F,
) -> bool {
    let was = before.resolved@;
    let now = after.resolved@;
    let n = now.len() - was.len();
    &&& after.dest_dir == before.dest_dir
    &&& after.op == before.op
    &&& 0 <= n <= decided(before.conflicts@.len(), apply_all)
    &&& overwrite ==> n == decided(before.conflicts@.len(), apply_all)
    &&& n < decided(before.conflicts@.len(), apply_all) ==> nameless(
        before.conflicts@[n]@,
        before.dest_dir@,
        now,
        on_disk,
    )
    &&& now.subrange(0, was.len() as int) == was
    &&& after.conflicts@ == before.conflicts@.subrange(n, before.conflicts@.len() as int)
    &&& forall|i: int|
        #![trigger now[was.len() + i]]
        0 <= i < n ==> settles(
            now[was.len() + i],
            before.conflicts@[i]@,
            before.dest_dir@,
            now.subrange(0, was.len() + i),
            overwrite,
            on_disk,
        )
}

impl PasteConflict {
    /// Applies the user's choice to just the shown item or, when `apply_all`, to
    /// every remaining conflict. Returns whether every item got a name; one for
    /// which none is left stays among the conflicts, with those after it.
    pub fn resolve<F: Fn(&String) -> bool>(
        &mut self,
        overwrite: bool,
        apply_all: bool,
        on_disk: &F,
    ) -> (r: bool)
        requires
            forall|s: &String| call_requires(*on_disk, (s,)),
        ensures
            settled(*final(self), *old(self), overwrite, apply_all, *on_disk),
            overwrite ==> r,
            r == (final(self).resolved@.len() - old(self).resolved@.len() == decided(
                old(self).conflicts@.len(),
                apply_all,
            )),
    {
        let take: usize = if apply_all {
            self.conflicts.len()
        } else if self.conflicts.len() > 0 {
            1
        } else {
            0
        };
        let mut taken: Vec<String> = claimed_names(&self.resolved);
        let ghost was = self.resolved@;
        let ghost all = self.conflicts@;
        let mut n: usize = 0;
        let mut fine: bool = true;
        assert(was.subrange(0, was.len() as int) =~= was);
        while n < take && fine
            invariant
                n <= take <= all.len(),
                all == self.conflicts@,
                all == old(self).conflicts@,
                was == old(self).resolved@,
                self.dest_dir == old(self).dest_dir,
                self.op == old(self).op,
                forall|s: &String| call_requires(*on_disk, (s,)),
                overwrite ==> fine,
                !fine ==> n < take && nameless(
                    all[n as int]@,
                    self.dest_dir@,
                    self.resolved@,
                    *on_disk,
                ),
                !overwrite ==> text::texts(taken@) == claims(self.resolved@),
                self.resolved@.len() == was.len() + n,
                self.resolved@.subrange(0, was.len() as int) == was,
                forall|i: int|
                    #![trigger self.resolved@[was.len() + i]]
                    0 <= i < n ==> settles(
                        self.resolved@[was.len() + i],
                        all[i]@,
                        self.dest_dir@,
                        self.resolved@.subrange(0, was.len() + i),
                        overwrite,
                        *on_disk,
                    ),
            decreases take - n + (if fine { 1int } else { 0 }),
        {
            let src = self.conflicts[n].clone();
            let ghost before = self.resolved@;
            let ghost sv = src@;
            let mut item: Option<TransferItem> = None;
            if overwrite {
                item = Some(TransferItem { src, dest_name: None, overwrite: true });
            } else {
                match next_free_copy_name(
                    self.dest_dir.as_str(),
                    src.as_str(),
                    &mut taken,
                    on_disk,
                ) {
                    Some(name) => {
                        item = Some(TransferItem { src, dest_name: Some(name), overwrite: false });
                    },
                    None => {},
                }
            }
            match item {
                Some(t) => {
                    self.resolved.push(t);
                    proof {
                        let now = self.resolved@;
                        assert(now.subrange(0, was.len() as int) =~= before.subrange(
                            0,
                            was.len() as int,
                        ));
                        assert(now.subrange(0, was.len() + n) =~= before);
                        if !overwrite {
                            assert(text::texts(taken@) =~= claims(now));
                        }
                        assert forall|i: int|
                            #![trigger now[was.len() + i]]
                            0 <= i < n + 1 implies settles(
                            now[was.len() + i],
                            all[i]@,
                            self.dest_dir@,
                            now.subrange(0, was.len() + i),
                            overwrite,
                            *on_disk,
                        ) by {
                            if i < n {
                                assert(now[was.len() + i] == before[was.len() + i]);
                                assert(now.subrange(0, was.len() + i) =~= before.subrange(
                                    0,
                                    was.len() + i,
                                ));
                            }
                        }
                    }
                    n = n + 1;
                },
                None => {
                    fine = false;
                },
            }
        }
        let rest = self.conflicts.split_off(n);
        self.conflicts = rest;
        fine
    }
}

/// An item that is kept beside what is there lands under a name that nothing
/// else in the batch before it takes up.
pub proof fn law_kept_items_get_names_of_their_own<F: Fn(&String) -> bool>(
    item: TransferItem,
    src: Seq<char>,
    dest: Seq<char>,
    before: Seq<TransferItem>,
    on_disk: F,
    i: int,
)
    requires
        settles(item, src, dest, before, false, on_disk),
        0 <= i < before.len(),
    ensures
        claim(item) != claim(before[i]),
        session::answered(on_disk, path::joined_path(dest, claim(item)), false),
{
    assert(claims(before)[i] == claim(before[i]));
    assert(claims(before).to_set().contains(claim(before[i])));
}

// ---------------------------------------------------------------------------
// A batch that is settled
// ---------------------------------------------------------------------------

/// The folders that a transfer changes: the destination, and the folders that
/// items are cut from.
pub open spec fn changed_dirs(
    srcs: Seq<Seq<char>>,
    dest: Seq<char>,
    op: Option<ClipboardOp>,
) -> Seq<Seq<char>>
    decreases srcs.len(),
{
    if srcs.len() == 0 || op != Some(ClipboardOp::Cut) {
        seq![dest]
    } else {
        let before = changed_dirs(srcs.drop_last(), dest, op);
        match path::parent_of(srcs.last()) {
            Some(up) => before.push(up),
            None => before,
        }
    }
}

/// The folders whose listings are out of date once the transfer is done.
pub fn transfer_dirs(items: &Vec<TransferItem>, dest: &str, op: Option<ClipboardOp>) -> (r: Vec<
    String,
>)
    ensures
        text::texts(r@) == changed_dirs(sources(items@), dest@, op),
{
    let mut r: Vec<String> = Vec::new();
    r.push(dest.to_owned());
    assert(text::texts(r@) =~= seq![dest@]);
    let cut: bool = match op {
        Some(ClipboardOp::Cut) => true,
        _ => false,
    };
    if !cut {
        return r;
    }
    let mut i: usize = 0;
    let ghost all = sources(items@);
    assert(all.subrange(0, 0) =~= Seq::<Seq<char>>::empty());
    while i < items.len()
        invariant
            i <= items.len(),
            op == Some(ClipboardOp::Cut),
            all == sources(items@),
            text::texts(r@) == changed_dirs(all.subrange(0, i as int), dest@, op),
        decreases items.len() - i,
    {
        proof {
            let upto = all.subrange(0, i + 1);
            assert(upto.drop_last() =~= all.subrange(0, i as int));
            assert(upto.last() == items@[i as int].src@);
        }
        match parent(items[i].src.as_str()) {
            Some(up) => {
                let ghost was = text::texts(r@);
                let ghost uv = up@;
                r.push(up);
                assert(text::texts(r@) =~= was.push(uv));
            },
            None => {},
        }
        i = i + 1;
    }
    assert(all.subrange(0, all.len() as int) =~= all);
    r
}

/// What is told when a transfer begins.
pub open spec fn transfer_status_text(dest: Seq<char>, op: Option<ClipboardOp>) -> Seq<char> {
    (if op == Some(ClipboardOp::Cut) {
        "Moving into "@
    } else {
        "Copying into "@
    }) + dest + "…"@
}

/// What is told when a transfer begins.
pub fn transfer_status(dest: &str, op: Option<ClipboardOp>) -> (r: String)
    ensures
        r@ == transfer_status_text(dest@, op),
{
    let mut r = match op {
        Some(ClipboardOp::Cut) => "Moving into ".to_owned(),
        _ => "Copying into ".to_owned(),
    };
    r.append(dest);
    r.append("…");
    r
}

/// The lines of the question about the next collision.
pub open spec fn question_lines(
    count: nat,
    first: Seq<char>,
    dest: Seq<char>,
    op: Option<ClipboardOp>,
) -> Seq<Seq<char>> {
    if count > 1 {
        let verb = if op == Some(ClipboardOp::Cut) {
            "moving"@
        } else {
            "copying"@
        };
        seq![
            text::decimal(count) + " of the items you're "@ + verb + " already exist in \""@ + dest
                + "\" with the same names."@,
            "This one: \""@ + first + "\" — replace the existing item, or keep both?"@,
            "Tip: hold Shift while clicking a button to apply your choice to all "@ + text::decimal(
                count,
            ) + " conflicting items at once."@,
        ]
    } else {
        seq![
            "\""@ + first + "\" already exists in \""@ + dest + "\"."@,
            "Do you want to replace the existing item, or keep both by saving the incoming one as a copy?"@,
        ]
    }
}

impl PasteConflict {
    /// The name of the item that is asked about.
    pub open spec fn first_name(self) -> Seq<char> {
        if self.conflicts@.len() > 0 {
            match path::file_name_of(self.conflicts@[0]@) {
                Some(n) => n,
                None => ""@,
            }
        } else {
            ""@
        }
    }

    /// The lines of the question about the next collision.
    pub fn question(&self) -> (r: Vec<String>)
        ensures
            text::texts(r@) == question_lines(
                self.conflicts@.len(),
                self.first_name(),
                self.dest_dir@,
                self.op,
            ),
    {
        let first = if self.conflicts.len() > 0 {
            match file_name(self.conflicts[0].as_str()) {
                Some(n) => n,
                None => "".to_owned(),
            }
        } else {
            "".to_owned()
        };
        let mut r: Vec<String> = Vec::new();
        if self.conflicts.len() > 1 {
            let mut a = usize_to_string(self.conflicts.len());
            a.append(" of the items you're ");
            match self.op {
                Some(ClipboardOp::Cut) => {
                    a.append("moving");
                },
                _ => {
                    a.append("copying");
                },
            }
            a.append(" already exist in \"");
            a.append(self.dest_dir.as_str());
            a.append("\" with the same names.");
            let mut b = "This one: \"".to_owned();
            b.append(first.as_str());
            b.append("\" — replace the existing item, or keep both?");
            let mut c =
                "Tip: hold Shift while clicking a button to apply your choice to all ".to_owned();
            c.append(usize_to_string(self.conflicts.len()).as_str());
            c.append(" conflicting items at once.");
            r.push(a);
            r.push(b);
            r.push(c);
        } else {
            let mut a = "\"".to_owned();
            a.append(first.as_str());
            a.append("\" already exists in \"");
            a.append(self.dest_dir.as_str());
            a.append("\".");
            r.push(a);
            r.push(
                "Do you want to replace the existing item, or keep both by saving the incoming one as a copy?".to_owned(),
            );
        }
        assert(text::texts(r@) =~= question_lines(
            self.conflicts@.len(),
            self.first_name(),
            self.dest_dir@,
            self.op,
        ));
        r
    }
}

pub(crate) proof fn lemma_pasted(clipboard: Seq<Seq<char>>, dest: Seq<char>, op: Option<ClipboardOp>)
    ensures
        pasted(clipboard, dest, op) == clipboard.filter(
            |src: Seq<char>| !already_there(src, dest, op),
        ),
    decreases clipboard.len(),
{
    reveal(Seq::filter);
    if clipboard.len() > 0 {
        lemma_pasted(clipboard.drop_last(), dest, op);
    }
}

/// A paste leaves out exactly the cut items whose parent is the destination.
/// All others are taken along, in their order.
pub proof fn law_only_items_in_place_are_left_out(
    clipboard: Vec<String>,
    dest: &str,
    op: Option<ClipboardOp>,
    r: Vec<String>,
)
    requires
        call_ensures(paste_items, (&clipboard, dest, op), r),
    ensures
        text::texts(r@) == text::texts(clipboard@).filter(
            |src: Seq<char>|
                op != Some(ClipboardOp::Cut) || path::parent_of(src) is None || !path::same_path(
                    path::parent_of(src)->0,
                    dest@,
                ),
        ),
        forall|src: Seq<char>|
            #![trigger text::texts(r@).contains(src)]
            text::texts(r@).contains(src) <==> text::texts(clipboard@).contains(src) && (op != Some(
                ClipboardOp::Cut,
            ) || path::parent_of(src) is None || !path::same_path(
                path::parent_of(src)->0,
                dest@,
            )),
{
    let all = text::texts(clipboard@);
    let p = |src: Seq<char>|
        op != Some(ClipboardOp::Cut) || path::parent_of(src) is None || !path::same_path(
            path::parent_of(src)->0,
            dest@,
        );
    lemma_pasted(all, dest@, op);
    assert((|src: Seq<char>| !already_there(src, dest@, op)) =~= p);
    let taken = text::texts(r@);
    assert forall|src: Seq<char>| #[trigger]
        taken.contains(src) <==> all.contains(src) && p(src) by {
        if taken.contains(src) {
            let i = choose|i: int| 0 <= i < taken.len() && taken[i] == src;
            all.lemma_filter_pred(p, i);
            all.lemma_filter_contains_rev(p, src);
        }
        if all.contains(src) && p(src) {
            let i = choose|i: int| 0 <= i < all.len() && all[i] == src;
            all.lemma_filter_contains(p, i);
        }
    }
}

proof fn lemma_changed_dirs(srcs: Seq<Seq<char>>, dest: Seq<char>, op: Option<ClipboardOp>, i: int)
    ensures
        ({
            let dirs = changed_dirs(srcs, dest, op);
            &&& dirs.len() > 0 && dirs[0] == dest
            &&& op == Some(ClipboardOp::Cut) && 0 <= i < srcs.len() ==> (path::parent_of(
                srcs[i],
            ) matches Some(up) ==> dirs.contains(up))
        }),
    decreases srcs.len(),
{
    let dirs = changed_dirs(srcs, dest, op);
    if srcs.len() > 0 && op == Some(ClipboardOp::Cut) {
        let before = changed_dirs(srcs.drop_last(), dest, op);
        lemma_changed_dirs(srcs.drop_last(), dest, op, i);
        assert(dirs[0] == before[0]);
        if 0 <= i < srcs.len() && path::parent_of(srcs[i]) is Some {
            let up = path::parent_of(srcs[i])->0;
            if i < srcs.len() - 1 {
                assert(srcs.drop_last()[i] == srcs[i]);
                let k = choose|k: int| 0 <= k < before.len() && before[k] == up;
                assert(dirs[k] == up);
            } else {
                assert(dirs[before.len() as int] == up);
            }
        }
    }
}

/// The folders that a transfer changes are the one that it goes to and, where
/// items are moved, every folder that one of them comes from.
pub proof fn law_changed_folders_are_known(
    items: &Vec<TransferItem>,
    dest: &str,
    op: Option<ClipboardOp>,
    r: Vec<String>,
    i: int,
)
    requires
        call_ensures(transfer_dirs, (items, dest, op), r),
        0 <= i < items@.len(),
    ensures
        text::texts(r@).contains(dest@),
        op == Some(ClipboardOp::Cut) ==> (path::parent_of(items@[i].src@) matches Some(up)
            ==> text::texts(r@).contains(up)),
        op != Some(ClipboardOp::Cut) ==> r@.len() == 1,
{
    let dirs = text::texts(r@);
    lemma_changed_dirs(sources(items@), dest@, op, i);
    assert(sources(items@)[i] == items@[i].src@);
    assert(dirs[0] == dest@);
    assert(dirs.len() == r@.len());
}

proof fn lemma_picked<T>(s: Seq<T>, answers: Seq<bool>, which: bool, x: T)
    requires
        answers.len() >= s.len(),
    ensures
        picked(s, answers, which).contains(x) <==> exists|i: int|
            0 <= i < s.len() && #[trigger] s[i] == x && answers[i] == which,
    decreases s.len(),
{
    if s.len() > 0 {
        let front = s.drop_last();
        let before = picked(front, answers, which);
        let all = picked(s, answers, which);
        lemma_picked(front, answers, which, x);
        if exists|i: int| 0 <= i < s.len() && #[trigger] s[i] == x && answers[i] == which {
            let i = choose|i: int| 0 <= i < s.len() && #[trigger] s[i] == x && answers[i] == which;
            if i < front.len() {
                assert(front[i] == x);
                let k = choose|k: int| 0 <= k < before.len() && before[k] == x;
                assert(all[k] == x);
            } else {
                assert(all[before.len() as int] == x);
            }
        }
        if all.contains(x) {
            let k = choose|k: int| 0 <= k < all.len() && all[k] == x;
            if k < before.len() {
                assert(before[k] == x);
                let i = choose|i: int|
                    0 <= i < front.len() && #[trigger] front[i] == x && answers[i] == which;
                assert(s[i] == x);
            } else {
                assert(s[s.len() - 1] == x);
            }
        }
    }
}

/// The user is asked about just those items whose name is taken at the
/// destination; the others are transferred under their own names, and nothing
/// gets lost between the two.
pub proof fn law_only_taken_names_are_asked_about<F: Fn(&String) -> bool>(
    items: Vec<String>,
    dest: &str,
    on_disk: &F,
    r: Sorted,
    i: int,
)
    requires
        call_ensures(sort_out::<F>, (items, dest, on_disk), r),
        0 <= i < items@.len(),
    ensures
        r.conflicts@.len() + r.resolved@.len() == items@.len(),
        ({
            let src = items@[i]@;
            let name = path::file_name_of(src);
            let there = session::answered(*on_disk, path::joined_path(dest@, name->0), true);
            let free = session::answered(*on_disk, path::joined_path(dest@, name->0), false);
            &&& name is Some && !free ==> text::texts(r.conflicts@).contains(src)
            &&& name is None || !there ==> sources(r.resolved@).contains(src)
            &&& text::texts(r.conflicts@).contains(src) ==> name is Some && there
            &&& sources(r.resolved@).contains(src) ==> name is None || free
        }),
        forall|k: int|
            0 <= k < r.resolved@.len() ==> (#[trigger] r.resolved@[k]).dest_name is None
                && !r.resolved@[k].overwrite,
{
    let all = text::texts(items@);
    let answers = choose|answers: Seq<bool>|
        {
            &&& #[trigger] collisions_answered(all, dest@, *on_disk, answers)
            &&& text::texts(r.conflicts@) == picked(all, answers, true)
            &&& sources(r.resolved@) == picked(all, answers, false)
        };
    let src = items@[i]@;
    assert(all[i] == src);
    assert(collision_answered(all[i], dest@, *on_disk, answers[i]));
    law_every_item_is_sorted(all, answers);
    assert(text::texts(r.conflicts@).len() == r.conflicts@.len());
    assert(sources(r.resolved@).len() == r.resolved@.len());
    lemma_picked(all, answers, true, src);
    lemma_picked(all, answers, false, src);
    if text::texts(r.conflicts@).contains(src) {
        let j = choose|j: int| 0 <= j < all.len() && #[trigger] all[j] == src && answers[j] == true;
        assert(collision_answered(all[j], dest@, *on_disk, answers[j]));
    }
    if sources(r.resolved@).contains(src) {
        let j = choose|j: int| 0 <= j < all.len() && #[trigger] all[j] == src && answers[j] == false;
        assert(collision_answered(all[j], dest@, *on_disk, answers[j]));
    }
}

/// The name that a copy is given is free on disk and given to no other copy, and
/// is taken from then on.
pub proof fn law_copies_get_free_names<F: Fn(&String) -> bool>(
    dest: &str,
    src: &str,
    on_disk: &F,
)
    ensures
        forall|taken: &mut Vec<String>, r: Option<String>|
            #[trigger] call_ensures(
                next_free_copy_name::<F>,
                (dest, src, taken, on_disk),
                r,
            ) && r is Some ==> {
                &&& session::answered(*on_disk, path::joined_path(dest@, r->0@), false)
                &&& !text::texts(taken@).contains(r->0@)
                &&& text::texts(final(taken)@) == text::texts(taken@).push(r->0@)
            },
{
    assert forall|taken: &mut Vec<String>, r: Option<String>|
        #[trigger] call_ensures(next_free_copy_name::<F>, (dest, src, taken, on_disk), r) && r
            is Some implies {
        &&& session::answered(*on_disk, path::joined_path(dest@, r->0@), false)
        &&& !text::texts(taken@).contains(r->0@)
        &&& text::texts(final(taken)@) == text::texts(taken@).push(r->0@)
    } by {
        let t = text::texts(taken@);
        if t.contains(r->0@) {
            assert(t.to_set().contains(r->0@));
        }
    }
}

/// One answer settles what it is for: the item that is shown or, where it is for
/// all of them, every item that is left. Replacing always can; keeping both stops
/// only at an item that no name is left for.
pub proof fn law_one_answer_settles_what_it_is_for<F: Fn(&String) -> bool>(
    overwrite: bool,
    apply_all: bool,
    on_disk: &F,
)
    ensures
        forall|c: &mut PasteConflict, r: bool|
            #[trigger] call_ensures(
                PasteConflict::resolve::<F>,
                (c, overwrite, apply_all, on_disk),
                r,
            ) ==> {
                let was = c.conflicts@;
                let left = final(c).conflicts@;
                &&& overwrite ==> r
                &&& r && apply_all ==> left.len() == 0 && final(c).resolved@.len()
                    == c.resolved@.len() + was.len()
                &&& r && !apply_all && was.len() > 0 ==> left == was.subrange(
                    1,
                    was.len() as int,
                ) && final(c).resolved@.len() == c.resolved@.len() + 1
                &&& !r ==> left.len() > 0 && forall|j: nat|
                    1 <= j <= u32::MAX ==> session::answered(
                        *on_disk,
                        path::joined_path(c.dest_dir@, #[trigger] copy_name(left[0]@, j)),
                        true,
                    ) || claims(final(c).resolved@).contains(copy_name(left[0]@, j))
                &&& final(c).dest_dir == c.dest_dir && final(c).op == c.op
            },
{
    assert forall|c: &mut PasteConflict, r: bool|
        #[trigger] call_ensures(
            PasteConflict::resolve::<F>,
            (c, overwrite, apply_all, on_disk),
            r,
        ) implies {
        let was = c.conflicts@;
        let left = final(c).conflicts@;
        &&& overwrite ==> r
        &&& r && apply_all ==> left.len() == 0 && final(c).resolved@.len() == c.resolved@.len()
            + was.len()
        &&& r && !apply_all && was.len() > 0 ==> left == was.subrange(1, was.len() as int) && final(
            c
        ).resolved@.len() == c.resolved@.len() + 1
        &&& !r ==> left.len() > 0 && forall|j: nat|
            1 <= j <= u32::MAX ==> session::answered(
                *on_disk,
                path::joined_path(c.dest_dir@, #[trigger] copy_name(left[0]@, j)),
                true,
            ) || claims(final(c).resolved@).contains(copy_name(left[0]@, j))
        &&& final(c).dest_dir == c.dest_dir && final(c).op == c.op
    } by {
        let was = c.conflicts@;
        let left = final(c).conflicts@;
        let now = final(c).resolved@;
        let n = now.len() - c.resolved@.len();
        if !r {
            assert(left[0] == was[n]);
            assert(nameless(was[n]@, c.dest_dir@, now, *on_disk));
            assert forall|j: nat| 1 <= j <= u32::MAX implies session::answered(
                *on_disk,
                path::joined_path(c.dest_dir@, #[trigger] copy_name(left[0]@, j)),
                true,
            ) || claims(now).contains(copy_name(left[0]@, j)) by {
                assert(name_occupied(
                    c.dest_dir@,
                    was[n]@,
                    claims(now).to_set(),
                    *on_disk,
                    j,
                ));
            }
        }
    }
}

} // verus!
