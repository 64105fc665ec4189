//! What a whole copy or move does on disk, from its first question to its end.

use crate::copy_walk::CopyAction;
use crate::progress::{FileCount, OpStatus, TransferItem};
use crate::transfer_job::{
    copy_items_bg, move_items_bg, AskView, JobView, ReplyView, StageView, TransferAsk, TransferJob,
    TransferReply,
};
use crate::{copy_walk, path, progress, transfer_job};
use vstd::prelude::*;

verus! {

// ---------------------------------------------------------------------------
// One step
// ---------------------------------------------------------------------------

/// The items that are still to be copied of the item at hand, in their order.
pub open spec fn ahead(v: JobView) -> Seq<(Seq<char>, Seq<char>)> {
    match v.stage {
        StageView::Entering(item, rest, _) => seq![item] + rest,
        StageView::Guarding(item, rest, _) => seq![item] + rest,
        StageView::Copying(item, rest, _) => seq![item] + rest,
        StageView::Copied(_, rest, _) => rest,
        _ => Seq::empty(),
    }
}

/// The item at hand is being copied.
pub open spec fn copying(v: JobView) -> bool {
    v.stage is Entering || v.stage is Guarding || v.stage is Copying || v.stage is Copied
}

/// The files that are done once the item at hand is copied so far.
pub open spec fn files_done(v: JobView) -> int {
    match v.stage {
        StageView::Entering(_, _, n) => n,
        StageView::Guarding(_, _, n) => n,
        StageView::Copying(_, _, n) => n,
        StageView::Copied(_, _, n) => n,
        StageView::Removing(n) => n,
        _ => v.done,
    }
}

/// A step of a copy that does not fail takes nothing off what is to be copied
/// but a file that has just been copied, or a folder for which everything that
/// is listed in it has come in its place, in front of all that was still to be
/// copied. The transfer leaves the item at hand, or turns to deleting its
/// source, only when nothing of it is left to copy.
pub proof fn law_a_step_forgets_nothing(v: JobView, r: ReplyView)
    requires
        v.ok(),
        v.takes(r),
        copying(v),
        r !is Failed,
        v.stage is Guarding ==> r == ReplyView::Answer(false),
    ensures
        match (v.ask(), r) {
            (AskView::Enter(item), ReplyView::Folder(names)) => {
                let below = Seq::new(
                    names.len(),
                    |k: int|
                        (path::joined_path(item.0, names[k]), path::joined_path(item.1, names[k])),
                );
                &&& ahead(v) == seq![item] + ahead(v).subrange(1, ahead(v).len() as int)
                &&& ahead(v.after(r)) == below + ahead(v).subrange(1, ahead(v).len() as int)
            },
            (AskView::Copy(item), _) => {
                &&& ahead(v) == seq![item] + ahead(v.after(r))
                &&& files_done(v.after(r)) == files_done(v) + 1
            },
            _ => ahead(v.after(r)) == ahead(v),
        },
        ahead(v.after(r)).len() > 0 || v.after(r).stage is Copied ==> copying(v.after(r))
            && v.after(r).at == v.at && v.after(r).errors == v.errors,
        !copying(v.after(r)) && v.copy ==> v.at < v.after(r).at && v.after(r).done == files_done(
            v,
        ),
        !copying(v.after(r)) && !v.copy ==> v.after(r).ask() == AskView::Remove(v.item().src@)
            && v.after(r).at == v.at,
{
    assert(v.succeeded(files_done(v)).at > v.at && v.succeeded(files_done(v)).done == files_done(
        v,
    ) && !copying(v.succeeded(files_done(v)))) by {
        transfer_job::lemma_begun(JobView { at: v.at + 1, done: files_done(v), ..v });
    }
    assert(ahead(v.succeeded(files_done(v))) =~= Seq::empty());
    match (v.stage, r) {
        (StageView::Entering(item, rest, n), ReplyView::Folder(names)) => {
            let below = Seq::new(
                names.len(),
                |k: int|
                    (path::joined_path(item.0, names[k]), path::joined_path(item.1, names[k])),
            );
            assert(copy_walk::children(item, names) =~= below);
            assert(ahead(v).subrange(1, ahead(v).len() as int) =~= rest);
            let todo = below + rest;
            if todo.len() > 0 {
                assert(seq![todo[0]] + todo.subrange(1, todo.len() as int) =~= todo);
            } else {
                assert(todo =~= Seq::empty());
            }
        },
        (StageView::Copied(_, rest, n), _) => {
            if rest.len() > 0 {
                assert(seq![rest[0]] + rest.subrange(1, rest.len() as int) =~= rest);
            } else {
                assert(rest =~= Seq::empty());
            }
        },
        _ => {},
    }
}

/// Something that may be replaced is deleted, and after that the transfer goes
/// on as if nothing had been there.
pub proof fn law_what_is_replaced_makes_room(v: JobView, dest: Seq<char>)
    requires
        v.ok(),
        v.stage == StageView::Finding(dest),
    ensures
        v.ask() == AskView::Look(dest),
        v.after(ReplyView::Answer(true)).ask() == AskView::Delete(dest),
        v.after(ReplyView::Answer(true)).after(ReplyView::Done) == v.after(
            ReplyView::Answer(false),
        ),
{
}

// ---------------------------------------------------------------------------
// A whole transfer
// ---------------------------------------------------------------------------

/// What a transfer does on disk.
pub enum Deed {
    Copy(CopyAction),
    Rename(Seq<char>, Seq<char>),
    Delete(Seq<char>),
    Remove(Seq<char>),
}

/// What is done on disk where `reply` comes of `ask`.
pub open spec fn deed(ask: AskView, reply: ReplyView) -> Seq<Deed> {
    match (ask, reply) {
        (AskView::Enter(item), ReplyView::Folder(_)) => seq![
            Deed::Copy(CopyAction::MakeDir(item.1)),
        ],
        (AskView::Copy(item), ReplyView::Done) => seq![
            Deed::Copy(CopyAction::CopyFile(item.0, item.1)),
        ],
        (AskView::Rename(from, to), ReplyView::Done) => seq![Deed::Rename(from, to)],
        (AskView::Delete(p), ReplyView::Done) => seq![Deed::Delete(p)],
        (AskView::Remove(p), ReplyView::Done) => seq![Deed::Remove(p)],
        _ => Seq::empty(),
    }
}

/// The transfer after `n` steps, where `disk` says what comes of each question.
pub open spec fn run(v: JobView, disk: spec_fn(AskView) -> ReplyView, n: nat) -> JobView
    decreases n,
{
    if n == 0 {
        v
    } else {
        run(v.after(disk(v.ask())), disk, (n - 1) as nat)
    }
}

/// What these steps do on disk, in their order.
pub open spec fn deeds(v: JobView, disk: spec_fn(AskView) -> ReplyView, n: nat) -> Seq<Deed>
    decreases n,
{
    if n == 0 {
        Seq::empty()
    } else {
        deed(v.ask(), disk(v.ask())) + deeds(v.after(disk(v.ask())), disk, (n - 1) as nat)
    }
}

/// What comes of each question of these steps can come of it.
pub open spec fn runs(v: JobView, disk: spec_fn(AskView) -> ReplyView, n: nat) -> bool
    decreases n,
{
    n > 0 ==> v.takes(disk(v.ask())) && runs(v.after(disk(v.ask())), disk, (n - 1) as nat)
}

/// The disk holds the folders and files that `listing` tells of, nothing is in
/// the way of the transfer, and nothing fails but perhaps a rename.
pub open spec fn truthful(
    disk: spec_fn(AskView) -> ReplyView,
    listing: spec_fn(Seq<char>) -> Option<Seq<Seq<char>>>,
) -> bool {
    &&& forall|item: (Seq<char>, Seq<char>)| #[trigger]
        disk(AskView::Enter(item)) == (match listing(item.0) {
            None => ReplyView::File,
            Some(names) => ReplyView::Folder(names),
        })
    &&& forall|item: (Seq<char>, Seq<char>)| #[trigger]
        disk(AskView::Copy(item)) == ReplyView::Done
    &&& forall|a: int, b: int, name: Seq<char>| #[trigger]
        disk(AskView::Report(a, b, name)) == ReplyView::Done
    &&& forall|p: Seq<char>| #[trigger] disk(AskView::Look(p)) == ReplyView::Answer(false)
    &&& forall|p: Seq<char>| #[trigger] disk(AskView::Remove(p)) == ReplyView::Done
    &&& forall|a: Seq<char>, b: Seq<char>| #[trigger]
        disk(AskView::Rename(a, b)) is Done || disk(AskView::Rename(a, b)) is Failed
}

/// The number of files that `disk` counts at `p`.
pub open spec fn counted(disk: spec_fn(AskView) -> ReplyView, p: Seq<char>) -> nat {
    match disk(AskView::Count(p)) {
        ReplyView::Counted(c) => match c {
            FileCount::File => 1,
            FileCount::Folder(n) => n as nat,
        },
        _ => 0,
    }
}

/// Where `item` goes in `dest_dir`: under the name that it is given, or its own.
pub open spec fn place(item: TransferItem, dest_dir: Seq<char>) -> Seq<char> {
    path::joined_path(
        dest_dir,
        match item.dest_name {
            Some(n) => n@,
            None => path::file_name_of(item.src@)->0,
        },
    )
}

/// What is to be done for one item: a copy creates everything that is at and
/// under its source; a move renames it, or copies it and then deletes the
/// source.
pub open spec fn wanted_of(
    copy: bool,
    item: TransferItem,
    dest_dir: Seq<char>,
    disk: spec_fn(AskView) -> ReplyView,
    listing: spec_fn(Seq<char>) -> Option<Seq<Seq<char>>>,
    depth: nat,
) -> Seq<Deed> {
    let copied = copy_walk::copy_actions(
        seq![(item.src@, place(item, dest_dir))],
        listing,
        depth,
    ).map_values(|a: CopyAction| Deed::Copy(a));
    if copy {
        copied
    } else if disk(AskView::Rename(item.src@, place(item, dest_dir))) is Done {
        seq![Deed::Rename(item.src@, place(item, dest_dir))]
    } else {
        copied.push(Deed::Remove(item.src@))
    }
}

/// What is to be done for all of `items`, one after the other.
pub open spec fn wanted(
    copy: bool,
    items: Seq<TransferItem>,
    dest_dir: Seq<char>,
    disk: spec_fn(AskView) -> ReplyView,
    listing: spec_fn(Seq<char>) -> Option<Seq<Seq<char>>>,
    depth: nat,
) -> Seq<Deed>
    decreases items.len(),
{
    if items.len() == 0 {
        Seq::empty()
    } else {
        wanted_of(copy, items[0], dest_dir, disk, listing, depth) + wanted(
            copy,
            items.subrange(1, items.len() as int),
            dest_dir,
            disk,
            listing,
            depth,
        )
    }
}

/// The number of files at and under the sources of `items`.
pub open spec fn files_of(
    items: Seq<TransferItem>,
    listing: spec_fn(Seq<char>) -> Option<Seq<Seq<char>>>,
    depth: nat,
) -> nat
    decreases items.len(),
{
    if items.len() == 0 {
        0
    } else {
        copy_walk::files_among(seq![items[0].src@], listing, depth) + files_of(
            items.subrange(1, items.len() as int),
            listing,
            depth,
        )
    }
}

/// Each item has a name to go under and is no deeper than `depth`, and `disk`
/// counts as many files at its source, and at its place once it was renamed, as
/// `listing` tells of.
pub open spec fn movable(
    items: Seq<TransferItem>,
    dest_dir: Seq<char>,
    disk: spec_fn(AskView) -> ReplyView,
    listing: spec_fn(Seq<char>) -> Option<Seq<Seq<char>>>,
    depth: nat,
) -> bool {
    forall|i: int|
        #![trigger items[i]]
        0 <= i < items.len() ==> {
            let files = copy_walk::files_among(seq![items[i].src@], listing, depth);
            &&& items[i].dest_name is Some || path::file_name_of(items[i].src@) is Some
            &&& copy_walk::shallow(items[i].src@, listing, depth)
            &&& disk(AskView::Count(items[i].src@)) is Counted
            &&& counted(disk, items[i].src@) == files
            &&& disk(AskView::Count(place(items[i], dest_dir))) is Counted
            &&& counted(disk, place(items[i], dest_dir)) == files
        }
}

proof fn lemma_run_adds(v: JobView, disk: spec_fn(AskView) -> ReplyView, a: nat, b: nat)
    ensures
        run(v, disk, a + b) == run(run(v, disk, a), disk, b),
        deeds(v, disk, a + b) == deeds(v, disk, a) + deeds(run(v, disk, a), disk, b),
        runs(v, disk, a) && runs(run(v, disk, a), disk, b) ==> runs(v, disk, a + b),
    decreases a,
{
    if a == 0 {
        assert(deeds(v, disk, a) + deeds(v, disk, b) =~= deeds(v, disk, b));
    } else {
        let w = v.after(disk(v.ask()));
        lemma_run_adds(w, disk, (a - 1) as nat, b);
        let first = deed(v.ask(), disk(v.ask()));
        assert((a + b - 1) as nat == (a - 1) as nat + b);
        assert(deeds(v, disk, a + b) == first + deeds(w, disk, (a + b - 1) as nat));
        assert(first + (deeds(w, disk, (a - 1) as nat) + deeds(run(v, disk, a), disk, b)) =~= (first
            + deeds(w, disk, (a - 1) as nat)) + deeds(run(v, disk, a), disk, b));
    }
}

proof fn lemma_one_step(v: JobView, disk: spec_fn(AskView) -> ReplyView)
    requires
        v.takes(disk(v.ask())),
    ensures
        run(v, disk, 1) == v.after(disk(v.ask())),
        deeds(v, disk, 1) == deed(v.ask(), disk(v.ask())),
        runs(v, disk, 1),
{
    let w = v.after(disk(v.ask()));
    assert(run(w, disk, 0) == w);
    assert(deeds(w, disk, 0) =~= Seq::<Deed>::empty());
    assert(runs(w, disk, 0));
    assert(deeds(v, disk, 1) == deed(v.ask(), disk(v.ask())) + deeds(w, disk, 0));
    assert(deeds(v, disk, 1) =~= deed(v.ask(), disk(v.ask())));
}

/// Taking one step in front of a run.
proof fn lemma_step_then(v: JobView, disk: spec_fn(AskView) -> ReplyView, n: nat)
    requires
        v.takes(disk(v.ask())),
        runs(v.after(disk(v.ask())), disk, n),
    ensures
        run(v, disk, n + 1) == run(v.after(disk(v.ask())), disk, n),
        deeds(v, disk, n + 1) == deed(v.ask(), disk(v.ask())) + deeds(
            v.after(disk(v.ask())),
            disk,
            n,
        ),
        runs(v, disk, n + 1),
{
}

/// What the copy goes on to does not depend on how far it has come.
proof fn lemma_walking_without_stage(
    v: JobView,
    s: StageView,
    todo: Seq<(Seq<char>, Seq<char>)>,
    n: int,
)
    requires
        v.errors.len() <= v.at < v.items.len(),
    ensures
        (JobView { stage: s, ..v }).walking(todo, n) == v.walking(todo, n),
{
    let w = JobView { stage: s, ..v };
    let next = JobView { at: v.at + 1, done: n, ..v };
    transfer_job::lemma_begun_without_stage(next, StageView::Over);
    transfer_job::lemma_begun_without_stage(
        JobView { at: v.at + 1, done: n, ..w },
        StageView::Over,
    );
}

pub open spec fn as_deeds(actions: Seq<CopyAction>) -> Seq<Deed> {
    actions.map_values(|a: CopyAction| Deed::Copy(a))
}

proof fn lemma_as_deeds_adds(a: Seq<CopyAction>, b: Seq<CopyAction>)
    ensures
        as_deeds(a + b) == as_deeds(a) + as_deeds(b),
{
    assert(as_deeds(a + b) =~= as_deeds(a) + as_deeds(b));
}

/// A file that comes next is copied, and the copy goes on with what is behind it.
proof fn lemma_walk_file(
    v: JobView,
    item: (Seq<char>, Seq<char>),
    behind: Seq<(Seq<char>, Seq<char>)>,
    m: int,
    disk: spec_fn(AskView) -> ReplyView,
    listing: spec_fn(Seq<char>) -> Option<Seq<Seq<char>>>,
)
    requires
        v.errors.len() <= v.at < v.items.len(),
        truthful(disk, listing),
        listing(item.0) is None,
        0 <= m < u64::MAX,
    ensures
        runs(v.walking(seq![item] + behind, m), disk, 4),
        run(v.walking(seq![item] + behind, m), disk, 4) == v.walking(behind, m + 1),
        deeds(v.walking(seq![item] + behind, m), disk, 4) == seq![
            Deed::Copy(CopyAction::CopyFile(item.0, item.1)),
        ],
{
    let todo = seq![item] + behind;
    assert(todo.subrange(1, todo.len() as int) =~= behind);
    let v0 = v.walking(todo, m);
    let v1 = JobView { stage: StageView::Guarding(item, behind, m), ..v };
    let v2 = JobView { stage: StageView::Copying(item, behind, m), ..v };
    let v3 = JobView { stage: StageView::Copied(item, behind, m + 1), ..v };
    let v4 = v.walking(behind, m + 1);
    assert(v0 == (JobView { stage: StageView::Entering(item, behind, m), ..v }));
    assert(v0.ask() == AskView::Enter(item));
    assert(v1.ask() == AskView::Look(item.1));
    assert(v2.ask() == AskView::Copy(item));
    assert(v0.after(disk(v0.ask())) == v1);
    assert(v1.after(disk(v1.ask())) == v2);
    assert(v2.after(disk(v2.ask())) == v3);
    lemma_walking_without_stage(v, v3.stage, behind, m + 1);
    assert(v3.after(disk(v3.ask())) == v4);
    lemma_one_step(v3, disk);
    lemma_step_then(v2, disk, 1);
    lemma_step_then(v1, disk, 2);
    lemma_step_then(v0, disk, 3);
    let one = Deed::Copy(CopyAction::CopyFile(item.0, item.1));
    assert(deeds(v3, disk, 1) =~= Seq::<Deed>::empty());
    assert(deeds(v2, disk, 2) =~= seq![one]);
    assert(deeds(v1, disk, 3) =~= seq![one]);
    assert(deeds(v0, disk, 4) =~= seq![one]);
}

/// A folder that comes next is created, and the copy goes on with what is in it
/// and then with what is behind it.
proof fn lemma_walk_folder(
    v: JobView,
    item: (Seq<char>, Seq<char>),
    names: Seq<Seq<char>>,
    behind: Seq<(Seq<char>, Seq<char>)>,
    m: int,
    disk: spec_fn(AskView) -> ReplyView,
    listing: spec_fn(Seq<char>) -> Option<Seq<Seq<char>>>,
)
    requires
        v.errors.len() <= v.at < v.items.len(),
        truthful(disk, listing),
        listing(item.0) == Some(names),
        0 <= m,
    ensures
        runs(v.walking(seq![item] + behind, m), disk, 1),
        run(v.walking(seq![item] + behind, m), disk, 1) == v.walking(
            copy_walk::children(item, names) + behind,
            m,
        ),
        deeds(v.walking(seq![item] + behind, m), disk, 1) == seq![
            Deed::Copy(CopyAction::MakeDir(item.1)),
        ],
{
    let todo = seq![item] + behind;
    assert(todo.subrange(1, todo.len() as int) =~= behind);
    let v0 = v.walking(todo, m);
    assert(v0 == (JobView { stage: StageView::Entering(item, behind, m), ..v }));
    assert(v0.ask() == AskView::Enter(item));
    lemma_walking_without_stage(v, v0.stage, copy_walk::children(item, names) + behind, m);
    lemma_one_step(v0, disk);
}

/// What copying the first of several items does comes before what copying the
/// others does.
proof fn lemma_first_actions(
    item: (Seq<char>, Seq<char>),
    tail: Seq<(Seq<char>, Seq<char>)>,
    listing: spec_fn(Seq<char>) -> Option<Seq<Seq<char>>>,
    depth: nat,
)
    requires
        listing(item.0) is Some ==> depth > 0,
    ensures
        ({
            let head = match listing(item.0) {
                None => seq![CopyAction::CopyFile(item.0, item.1)],
                Some(names) => seq![CopyAction::MakeDir(item.1)] + copy_walk::copy_actions(
                    copy_walk::children(item, names),
                    listing,
                    (depth - 1) as nat,
                ),
            };
            let behind = copy_walk::copy_actions(tail, listing, depth);
            let all = copy_walk::copy_actions(seq![item] + tail, listing, depth);
            &&& all == head + behind
            &&& as_deeds(all) == as_deeds(head) + as_deeds(behind)
            &&& copy_walk::files_copied(all) == copy_walk::files_copied(head)
                + copy_walk::files_copied(behind)
            &&& listing(item.0) is None ==> copy_walk::files_copied(head) == 1 && as_deeds(head)
                == seq![Deed::Copy(CopyAction::CopyFile(item.0, item.1))]
            &&& (listing(item.0) matches Some(names) ==> {
                let below = copy_walk::copy_actions(
                    copy_walk::children(item, names),
                    listing,
                    (depth - 1) as nat,
                );
                &&& copy_walk::files_copied(head) == copy_walk::files_copied(below)
                &&& as_deeds(head) == seq![Deed::Copy(CopyAction::MakeDir(item.1))] + as_deeds(
                    below,
                )
            })
        }),
{
    let first = seq![item];
    copy_walk::law_actions_follow_the_items(first, tail, listing, depth);
    let head = copy_walk::copy_actions(first, listing, depth);
    let behind = copy_walk::copy_actions(tail, listing, depth);
    copy_walk::lemma_files_copied_adds(head, behind);
    lemma_as_deeds_adds(head, behind);
    assert(first.drop_last() =~= Seq::<(Seq<char>, Seq<char>)>::empty());
    assert(copy_walk::copy_actions(first.drop_last(), listing, depth) =~= Seq::<
        CopyAction,
    >::empty());
    assert(first.last() == item);
    match listing(item.0) {
        None => {
            let one = CopyAction::CopyFile(item.0, item.1);
            assert(head =~= seq![one]);
            assert(seq![one].drop_last() =~= Seq::<CopyAction>::empty());
            assert(copy_walk::files_copied(seq![one].drop_last()) == 0);
            assert(as_deeds(head) =~= seq![Deed::Copy(one)]);
        },
        Some(names) => {
            let one = CopyAction::MakeDir(item.1);
            let below = copy_walk::copy_actions(
                copy_walk::children(item, names),
                listing,
                (depth - 1) as nat,
            );
            assert(head =~= seq![one] + below);
            assert(seq![one].drop_last() =~= Seq::<CopyAction>::empty());
            assert(copy_walk::files_copied(seq![one].drop_last()) == 0);
            assert(copy_walk::files_copied(seq![one]) == 0);
            copy_walk::lemma_files_copied_adds(seq![one], below);
            lemma_as_deeds_adds(seq![one], below);
            assert(as_deeds(seq![one]) =~= seq![Deed::Copy(one)]);
        },
    }
}

/// Copying `todo`, then what is behind it, does what copying `todo` does and
/// comes to what is behind it.
proof fn lemma_walk(
    v: JobView,
    todo: Seq<(Seq<char>, Seq<char>)>,
    rest: Seq<(Seq<char>, Seq<char>)>,
    m: int,
    disk: spec_fn(AskView) -> ReplyView,
    listing: spec_fn(Seq<char>) -> Option<Seq<Seq<char>>>,
    depth: nat,
) -> (k: nat)
    requires
        v.errors.len() <= v.at < v.items.len(),
        truthful(disk, listing),
        forall|i: int|
            0 <= i < todo.len() ==> copy_walk::shallow((#[trigger] todo[i]).0, listing, depth),
        0 <= m,
        m + copy_walk::files_copied(copy_walk::copy_actions(todo, listing, depth)) <= u64::MAX,
    ensures
        runs(v.walking(todo + rest, m), disk, k),
        run(v.walking(todo + rest, m), disk, k) == v.walking(
            rest,
            m + copy_walk::files_copied(copy_walk::copy_actions(todo, listing, depth)),
        ),
        deeds(v.walking(todo + rest, m), disk, k) == as_deeds(
            copy_walk::copy_actions(todo, listing, depth),
        ),
    decreases depth, todo.len(),
{
    if todo.len() == 0 {
        assert(todo + rest =~= rest);
        assert(as_deeds(copy_walk::copy_actions(todo, listing, depth)) =~= Seq::<Deed>::empty());
        0
    } else {
        let item = todo[0];
        let tail = todo.subrange(1, todo.len() as int);
        let behind = tail + rest;
        assert(todo =~= seq![item] + tail);
        assert(todo + rest =~= seq![item] + behind);
        assert(copy_walk::shallow(item.0, listing, depth));
        let v0 = v.walking(todo + rest, m);
        match listing(item.0) {
            None => {
                lemma_first_actions(item, tail, listing, depth);
                lemma_walk_file(v, item, behind, m, disk, listing);
                let k = lemma_walk(v, tail, rest, m + 1, disk, listing, depth);
                lemma_run_adds(v0, disk, 4, k);
                4 + k
            },
            Some(names) => {
                let kids = copy_walk::children(item, names);
                copy_walk::lemma_shallow_below(item, names, listing, depth);
                let less = (depth - 1) as nat;
                lemma_first_actions(item, tail, listing, depth);
                lemma_walk_folder(v, item, names, behind, m, disk, listing);
                let below = copy_walk::files_copied(
                    copy_walk::copy_actions(kids, listing, less),
                ) as int;
                let a = lemma_walk(v, kids, behind, m, disk, listing, less);
                let b = lemma_walk(v, tail, rest, m + below, disk, listing, depth);
                let v1 = v.walking(kids + behind, m);
                lemma_run_adds(v1, disk, a, b);
                lemma_run_adds(v0, disk, 1, a + b);
                let one = seq![Deed::Copy(CopyAction::MakeDir(item.1))];
                assert(one + (deeds(v1, disk, a) + deeds(run(v1, disk, a), disk, b)) =~= (one
                    + deeds(v1, disk, a)) + deeds(run(v1, disk, a), disk, b));
                1 + (a + b)
            },
        }
    }
}

/// From where the item at hand begins to be copied, everything at and under its
/// source is copied, each thing to its place under the destination, before the
/// transfer turns to the next item or to deleting the source.
pub proof fn law_an_item_is_copied_whole(
    v: JobView,
    src: Seq<char>,
    dest: Seq<char>,
    n: int,
    disk: spec_fn(AskView) -> ReplyView,
    listing: spec_fn(Seq<char>) -> Option<Seq<Seq<char>>>,
    depth: nat,
) -> (k: nat)
    requires
        v.ok(),
        v.stage == StageView::Entering((src, dest), Seq::empty(), n),
        truthful(disk, listing),
        copy_walk::shallow(src, listing, depth),
        0 <= n,
        n + copy_walk::files_among(seq![src], listing, depth) <= u64::MAX,
    ensures
        runs(v, disk, k),
        deeds(v, disk, k) == as_deeds(copy_walk::copy_actions(seq![(src, dest)], listing, depth)),
        run(v, disk, k) == (if v.copy {
            v.succeeded(n + copy_walk::files_among(seq![src], listing, depth))
        } else {
            JobView {
                stage: StageView::Removing(
                    n + copy_walk::files_among(seq![src], listing, depth),
                ),
                ..v
            }
        }),
{
    let todo = seq![(src, dest)];
    let rest = Seq::<(Seq<char>, Seq<char>)>::empty();
    copy_walk::law_every_counted_file_is_copied(todo, listing, depth);
    assert(todo.map_values(|i: (Seq<char>, Seq<char>)| i.0) =~= seq![src]);
    let k = lemma_walk(v, todo, rest, n, disk, listing, depth);
    assert(todo + rest =~= todo);
    assert(todo.subrange(1, 1) =~= rest);
    assert(v.walking(todo + rest, n) == v);
    k
}

proof fn lemma_place(item: TransferItem, dest_dir: Seq<char>)
    requires
        item.dest_name is Some || path::file_name_of(item.src@) is Some,
    ensures
        item.dest_in(dest_dir) == Some(place(item, dest_dir)),
{
}

/// The transfer of the item at hand does what is wanted of it and comes to the
/// next.
proof fn lemma_item(
    v: JobView,
    disk: spec_fn(AskView) -> ReplyView,
    listing: spec_fn(Seq<char>) -> Option<Seq<Seq<char>>>,
    depth: nat,
) -> (k: nat)
    requires
        v.errors.len() <= v.at < v.items.len(),
        truthful(disk, listing),
        movable(v.items, v.dest_dir, disk, listing, depth),
        0 <= v.done,
        v.done + copy_walk::files_among(seq![v.item().src@], listing, depth) <= u64::MAX,
    ensures
        runs(v.begun(), disk, k),
        run(v.begun(), disk, k) == v.succeeded(
            v.done + copy_walk::files_among(seq![v.item().src@], listing, depth),
        ),
        deeds(v.begun(), disk, k) == wanted_of(
            v.copy,
            v.item(),
            v.dest_dir,
            disk,
            listing,
            depth,
        ),
{
    let item = v.item();
    let src = item.src@;
    let dest = place(item, v.dest_dir);
    let files = copy_walk::files_among(seq![src], listing, depth);
    assert(movable(v.items, v.dest_dir, disk, listing, depth));
    assert(v.items[v.at] == item);
    lemma_place(item, v.dest_dir);
    let walked = as_deeds(copy_walk::copy_actions(seq![(src, dest)], listing, depth));
    let entering = JobView {
        stage: StageView::Entering((src, dest), Seq::empty(), v.done),
        ..v
    };
    let placed = JobView { stage: v.placed(dest), ..v };
    let placing = JobView { stage: v.placing(dest), ..v };
    // From the copy, or from where the destination was looked at.
    let mut k: nat = 0;
    if v.copy {
        k = law_an_item_is_copied_whole(entering, src, dest, v.done, disk, listing, depth);
        lemma_succeeded_without_stage(v, entering.stage, v.done + files);
        assert(placed == entering);
        assert(deeds(placed, disk, k) =~= wanted_of(
            v.copy,
            item,
            v.dest_dir,
            disk,
            listing,
            depth,
        ));
    } else {
        let renaming = JobView { stage: StageView::Renaming(dest), ..v };
        let mut b: nat = 0;
        if disk(AskView::Rename(src, dest)) is Done {
            let recounting = JobView { stage: StageView::Recounting(dest), ..v };
            let moved = JobView { stage: StageView::Moved(v.done + files), ..v };
            assert(renaming.ask() == AskView::Rename(src, dest));
            assert(renaming.after(disk(renaming.ask())) == recounting);
            assert(recounting.ask() == AskView::Count(dest));
            assert(recounting.after(disk(recounting.ask())) == moved);
            lemma_succeeded_without_stage(v, moved.stage, v.done + files);
            assert(moved.after(disk(moved.ask())) == v.succeeded(v.done + files));
            lemma_one_step(moved, disk);
            lemma_step_then(recounting, disk, 1);
            lemma_step_then(renaming, disk, 2);
            assert(deeds(moved, disk, 1) =~= Seq::<Deed>::empty());
            assert(deeds(recounting, disk, 2) =~= Seq::<Deed>::empty());
            assert(deeds(renaming, disk, 3) =~= seq![Deed::Rename(src, dest)]);
            b = 3;
        } else {
            let a = law_an_item_is_copied_whole(
                entering,
                src,
                dest,
                v.done,
                disk,
                listing,
                depth,
            );
            let removing = JobView { stage: StageView::Removing(v.done + files), ..v };
            assert(run(entering, disk, a) == removing);
            lemma_succeeded_without_stage(v, removing.stage, v.done + files);
            assert(removing.ask() == AskView::Remove(src));
            lemma_one_step(removing, disk);
            lemma_run_adds(entering, disk, a, 1);
            assert(renaming.ask() == AskView::Rename(src, dest));
            assert(renaming.after(disk(renaming.ask())) == entering);
            lemma_step_then(renaming, disk, a + 1);
            assert(deeds(entering, disk, a + 1) =~= walked.push(Deed::Remove(src)));
            assert(deeds(renaming, disk, a + 2) =~= walked.push(Deed::Remove(src)));
            b = a + 2;
        }
        assert(placed.stage == StageView::Checking(dest));
        assert(placed.after(disk(placed.ask())) == renaming);
        lemma_step_then(placed, disk, b);
        assert(deeds(placed, disk, b + 1) =~= deeds(renaming, disk, b));
        k = b + 1;
    }
    if item.overwrite {
        assert(placing.stage == StageView::Finding(dest));
        assert(placing.after(disk(placing.ask())) == placed);
        lemma_step_then(placing, disk, k);
        assert(deeds(placing, disk, k + 1) =~= deeds(placed, disk, k));
        k = k + 1;
    } else {
        assert(placing == placed);
    }
    if v.copy {
        let announcing = JobView { stage: StageView::Announcing(dest), ..v };
        assert(v.begun() == announcing);
        assert(announcing.after(disk(announcing.ask())) == placing);
        lemma_step_then(announcing, disk, k);
        assert(deeds(announcing, disk, k + 1) =~= deeds(placing, disk, k));
        k = k + 1;
    } else {
        assert(v.begun() == placing);
    }
    k
}

proof fn lemma_succeeded_without_stage(v: JobView, s: StageView, n: int)
    requires
        v.errors.len() <= v.at < v.items.len(),
    ensures
        (JobView { stage: s, ..v }).succeeded(n) == v.succeeded(n),
{
    let next = JobView { at: v.at + 1, done: n, ..v };
    transfer_job::lemma_begun_without_stage(next, s);
}

/// The transfer of the items from the one at hand on.
proof fn lemma_items(
    v: JobView,
    disk: spec_fn(AskView) -> ReplyView,
    listing: spec_fn(Seq<char>) -> Option<Seq<Seq<char>>>,
    depth: nat,
) -> (k: nat)
    requires
        v.errors.len() <= v.at <= v.items.len(),
        0 <= v.at,
        truthful(disk, listing),
        movable(v.items, v.dest_dir, disk, listing, depth),
        0 <= v.done,
        v.done + files_of(v.items.subrange(v.at, v.items.len() as int), listing, depth)
            <= u64::MAX,
    ensures
        runs(v.begun(), disk, k),
        run(v.begun(), disk, k) == (JobView {
            at: v.items.len() as int,
            done: v.done + files_of(
                v.items.subrange(v.at, v.items.len() as int),
                listing,
                depth,
            ),
            stage: StageView::Over,
            ..v
        }),
        deeds(v.begun(), disk, k) == wanted(
            v.copy,
            v.items.subrange(v.at, v.items.len() as int),
            v.dest_dir,
            disk,
            listing,
            depth,
        ),
    decreases v.items.len() - v.at,
{
    let left = v.items.subrange(v.at, v.items.len() as int);
    if v.at == v.items.len() {
        assert(left =~= Seq::<TransferItem>::empty());
        0
    } else {
        let files = copy_walk::files_among(seq![v.item().src@], listing, depth);
        let after = v.items.subrange(v.at + 1, v.items.len() as int);
        assert(left[0] == v.item());
        assert(left.subrange(1, left.len() as int) =~= after);
        let a = lemma_item(v, disk, listing, depth);
        let next = JobView { at: v.at + 1, done: v.done + files, ..v };
        let b = lemma_items(next, disk, listing, depth);
        lemma_run_adds(v.begun(), disk, a, b);
        a + b
    }
}

proof fn lemma_counts(
    items: Seq<TransferItem>,
    counts: Seq<FileCount>,
    listing: spec_fn(Seq<char>) -> Option<Seq<Seq<char>>>,
    depth: nat,
)
    requires
        counts.len() <= items.len(),
        forall|i: int|
            0 <= i < counts.len() ==> (#[trigger] counts[i]).files() == copy_walk::files_among(
                seq![items[i].src@],
                listing,
                depth,
            ),
    ensures
        progress::files_in(counts) + files_of(
            items.subrange(counts.len() as int, items.len() as int),
            listing,
            depth,
        ) == files_of(items, listing, depth),
    decreases counts.len(),
{
    if counts.len() == 0 {
        assert(items.subrange(0, items.len() as int) =~= items);
    } else {
        let n = counts.len() - 1;
        lemma_counts(items, counts.drop_last(), listing, depth);
        let left = items.subrange(n, items.len() as int);
        assert(left.subrange(1, left.len() as int) =~= items.subrange(n + 1, items.len() as int));
        assert(left[0] == items[n]);
    }
}

/// The files of the items that are left are counted, and the transfer begins.
proof fn lemma_counting(
    v: JobView,
    disk: spec_fn(AskView) -> ReplyView,
    listing: spec_fn(Seq<char>) -> Option<Seq<Seq<char>>>,
    depth: nat,
) -> (k: nat)
    requires
        v.stage is Counting,
        v.at == 0,
        v.counts.len() < v.items.len(),
        movable(v.items, v.dest_dir, disk, listing, depth),
        forall|i: int|
            0 <= i < v.counts.len() ==> (#[trigger] v.counts[i]).files() == copy_walk::files_among(
                seq![v.items[i].src@],
                listing,
                depth,
            ),
        files_of(v.items, listing, depth) <= u64::MAX,
    ensures
        runs(v, disk, k),
        deeds(v, disk, k) == Seq::<Deed>::empty(),
        exists|counts: Seq<FileCount>| #[trigger]
            counts.len() == v.items.len() && run(v, disk, k) == (JobView {
                counts,
                total: files_of(v.items, listing, depth) as int,
                ..v
            }).begun(),
    decreases v.items.len() - v.counts.len(),
{
    let n = v.counts.len() as int;
    assert(movable(v.items, v.dest_dir, disk, listing, depth));
    let src = v.items[n].src@;
    let c = disk(AskView::Count(src))->Counted_0;
    let counts = v.counts.push(c);
    assert(c.files() == counted(disk, src));
    lemma_counts(v.items, counts, listing, depth);
    assert(v.ask() == AskView::Count(src));
    assert(v.takes(disk(v.ask())));
    let w = v.after(disk(v.ask()));
    if counts.len() < v.items.len() {
        let now = JobView { counts, ..v };
        let k = lemma_counting(now, disk, listing, depth);
        lemma_step_then(v, disk, k);
        assert(deeds(v, disk, k + 1) =~= Seq::<Deed>::empty());
        let all = choose|all: Seq<FileCount>| #[trigger]
            all.len() == now.items.len() && run(now, disk, k) == (JobView {
                counts: all,
                total: files_of(v.items, listing, depth) as int,
                ..now
            }).begun();
        assert(JobView {
            counts: all,
            total: files_of(v.items, listing, depth) as int,
            ..now
        } == JobView { counts: all, total: files_of(v.items, listing, depth) as int, ..v });
        k + 1
    } else {
        assert(v.items.subrange(counts.len() as int, v.items.len() as int) =~= Seq::<
            TransferItem,
        >::empty());
        lemma_one_step(v, disk);
        assert(deeds(v, disk, 1) =~= Seq::<Deed>::empty());
        assert(counts.len() == v.items.len());
        1
    }
}

proof fn lemma_transfer(
    v: JobView,
    disk: spec_fn(AskView) -> ReplyView,
    listing: spec_fn(Seq<char>) -> Option<Seq<Seq<char>>>,
    depth: nat,
) -> (k: nat)
    requires
        v == transfer_job::fresh_job(v.copy, v.items, v.dest_dir),
        truthful(disk, listing),
        movable(v.items, v.dest_dir, disk, listing, depth),
        files_of(v.items, listing, depth) <= u64::MAX,
    ensures
        runs(v, disk, k),
        run(v, disk, k).ask() is End,
        run(v, disk, k).errors.len() == 0,
        run(v, disk, k).done == files_of(v.items, listing, depth),
        run(v, disk, k).total == files_of(v.items, listing, depth),
        deeds(v, disk, k) == wanted(v.copy, v.items, v.dest_dir, disk, listing, depth),
{
    if v.items.len() == 0 {
        0
    } else {
        let a = lemma_counting(v, disk, listing, depth);
        let total = files_of(v.items, listing, depth) as int;
        let counts = choose|counts: Seq<FileCount>| #[trigger]
            counts.len() == v.items.len() && run(v, disk, a) == (JobView {
                counts,
                total,
                ..v
            }).begun();
        let now = JobView { counts, total, ..v };
        assert(v.items.subrange(0, v.items.len() as int) =~= v.items);
        let b = lemma_items(now, disk, listing, depth);
        lemma_run_adds(v, disk, a, b);
        assert(deeds(v, disk, a + b) =~= deeds(now.begun(), disk, b));
        a + b
    }
}

/// A copy of which nothing fails copies every item whole, one after the other,
/// each to its place in the destination, and does nothing else on disk. It ends
/// without errors, with as many files done as were counted.
pub proof fn law_a_copy_copies_everything(
    items: Vec<TransferItem>,
    dest_dir: String,
    job: TransferJob,
    disk: spec_fn(AskView) -> ReplyView,
    listing: spec_fn(Seq<char>) -> Option<Seq<Seq<char>>>,
    depth: nat,
) -> (k: nat)
    requires
        call_ensures(copy_items_bg, (items, dest_dir), job),
        truthful(disk, listing),
        movable(items@, dest_dir@, disk, listing, depth),
        files_of(items@, listing, depth) <= u64::MAX,
    ensures
        runs(job@, disk, k),
        run(job@, disk, k).ask() is End,
        run(job@, disk, k).errors.len() == 0,
        run(job@, disk, k).done == files_of(items@, listing, depth),
        run(job@, disk, k).total == files_of(items@, listing, depth),
        deeds(job@, disk, k) == wanted(true, items@, dest_dir@, disk, listing, depth),
{
    lemma_transfer(job@, disk, listing, depth)
}

/// A move of which nothing fails renames each item to its place in the
/// destination or, where that cannot be done, copies it whole and only then
/// deletes its source, one item after the other, and does nothing else on disk.
/// It ends without errors, with as many files done as were counted.
pub proof fn law_a_move_moves_everything(
    items: Vec<TransferItem>,
    dest_dir: String,
    job: TransferJob,
    disk: spec_fn(AskView) -> ReplyView,
    listing: spec_fn(Seq<char>) -> Option<Seq<Seq<char>>>,
    depth: nat,
) -> (k: nat)
    requires
        call_ensures(move_items_bg, (items, dest_dir), job),
        truthful(disk, listing),
        movable(items@, dest_dir@, disk, listing, depth),
        files_of(items@, listing, depth) <= u64::MAX,
    ensures
        runs(job@, disk, k),
        run(job@, disk, k).ask() is End,
        run(job@, disk, k).errors.len() == 0,
        run(job@, disk, k).done == files_of(items@, listing, depth),
        run(job@, disk, k).total == files_of(items@, listing, depth),
        deeds(job@, disk, k) == wanted(false, items@, dest_dir@, disk, listing, depth),
{
    lemma_transfer(job@, disk, listing, depth)
}

/// What a transfer asks for and how it takes in what came of it is what is told
/// of its view. At its end it is completed exactly where nothing went wrong, and
/// names the folder.
pub proof fn law_a_job_follows_its_view()
    ensures
        forall|job: &mut TransferJob, reply: TransferReply| #[trigger]
            call_ensures(TransferJob::take, (job, reply), ()) ==> final(job)@ == job@.after(
                reply@,
            ),
        forall|job: &TransferJob, r: TransferAsk| #[trigger]
            call_ensures(TransferJob::ask, (job,), r) ==> r@ == job@.ask(),
        forall|job: &TransferJob, status: OpStatus| #[trigger]
            call_ensures(TransferJob::ask, (job,), TransferAsk::End(status)) ==> {
                &&& status is Completed <==> job@.errors.len() == 0
                &&& status is Failed <==> job@.errors.len() > 0
                &&& status is Completed && job@.copy ==> status->Completed_0@ == "Copied into "@
                    + job@.dest_dir
                &&& status is Completed && !job@.copy ==> status->Completed_0@ == "Moved into "@
                    + job@.dest_dir
            },
{
}

} // verus!
