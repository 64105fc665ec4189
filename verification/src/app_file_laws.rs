//! What the file commands of the program do: what reaches the disk, and what is
//! only asked.

use crate::app::FileManApp;
use crate::app_nav::Effect;
use crate::dialog::Dialog;
use crate::fs_ops::ClipboardOp;
use crate::native_drag::{DragOutOutcome, PendingDrop};
use crate::progress::{OpStatus, ProgressUpdate, TransferItem};
use crate::transfer::PasteConflict;
use crate::{app_files, app_tasks, browse, path, session, text, transfer};
use vstd::prelude::*;

verus! {

// ---------------------------------------------------------------------------
// The clipboard
// ---------------------------------------------------------------------------

proof fn lemma_selected(before: FileManApp, all: Seq<String>)
    requires
        text::texts(all) == browse::selected_paths_of(before.active()),
    ensures
        all.len() == before.active().selected@.len(),
        forall|i: int|
            0 <= i < all.len() ==> (#[trigger] all[i])@ == path::joined_path(
                before.active().path@,
                before.active().selected@[i]@,
            ),
{
    let t = before.active();
    assert(text::texts(all).len() == all.len());
    assert forall|i: int| 0 <= i < all.len() implies (#[trigger] all[i])@ == path::joined_path(
        t.path@,
        t.selected@[i]@,
    ) by {
        assert(text::texts(all)[i] == all[i]@);
        assert(browse::selected_paths_of(t)[i] == path::joined_path(
            t.path@,
            text::texts(t.selected@)[i],
        ));
    }
}

/// Copying or cutting puts the path of each selected item on the clipboard, with
/// what is to be done with them. Nothing is copied or moved yet. Without a
/// selection the clipboard stays as it is.
pub proof fn law_the_clipboard_takes_the_selection(
    after: FileManApp,
    before: FileManApp,
    op: ClipboardOp,
    effect: Effect,
)
    requires
        app_files::put_on_clipboard(after, before, op, effect),
    ensures
        before.active().selected@.len() == 0 ==> after.clipboard == before.clipboard
            && after.clipboard_op == before.clipboard_op && effect == Effect::Nothing,
        before.active().selected@.len() > 0 ==> {
            &&& after.clipboard@.len() == before.active().selected@.len()
            &&& forall|i: int|
                0 <= i < after.clipboard@.len() ==> (#[trigger] after.clipboard@[i])@
                    == path::joined_path(before.active().path@, before.active().selected@[i]@)
            &&& after.clipboard_op == Some(op)
            &&& effect is CopyText
        },
        after.panes == before.panes && after.db == before.db,
        after.background_op == before.background_op && after.dialog == before.dialog,
{
    assert(browse::selected_paths_of(before.active()).len() == before.active().selected@.len());
    if before.active().selected@.len() > 0 {
        lemma_selected(before, after.clipboard@);
    }
}

// ---------------------------------------------------------------------------
// Pasting
// ---------------------------------------------------------------------------

proof fn lemma_pick_all<T>(s: Seq<T>, answers: Seq<bool>, which: bool)
    requires
        answers.len() == s.len(),
        transfer::picked(s, answers, !which).len() == 0,
    ensures
        transfer::picked(s, answers, which) == s,
    decreases s.len(),
{
    if s.len() > 0 {
        let front = s.drop_last();
        let short = answers.drop_last();
        transfer::lemma_picked_reads_only_its_answers(front, short, answers, which);
        transfer::lemma_picked_reads_only_its_answers(front, short, answers, !which);
        lemma_pick_all(front, short, which);
        assert(front.push(s.last()) =~= s);
    } else {
        assert(transfer::picked(s, answers, which) =~= s);
    }
}

proof fn lemma_picked_member<T>(s: Seq<T>, answers: Seq<bool>, which: bool, x: T)
    requires
        answers.len() == s.len(),
        transfer::picked(s, answers, which).contains(x),
    ensures
        exists|i: int| 0 <= i < s.len() && #[trigger] s[i] == x && answers[i] == which,
    decreases s.len(),
{
    if s.len() > 0 {
        let front = s.drop_last();
        let short = answers.drop_last();
        transfer::lemma_picked_reads_only_its_answers(front, short, answers, which);
        let all = transfer::picked(s, answers, which);
        let some = transfer::picked(front, short, which);
        let k = choose|k: int| 0 <= k < all.len() && all[k] == x;
        if k < some.len() {
            assert(some[k] == x);
            lemma_picked_member(front, short, which, x);
            let i = choose|i: int| 0 <= i < front.len() && #[trigger] front[i] == x && short[i]
                == which;
            assert(s[i] == x && answers[i] == which);
        } else {
            assert(s[s.len() - 1] == x);
        }
    }
}

/// Items on their way into a folder all get there: where none has a name that is
/// taken there, all of them are sent, under their own names and writing over
/// nothing. Else the user is asked before anything is sent: each item is one
/// that is asked about, since something of its name was seen there, or waits
/// with those that are settled.
pub proof fn law_no_item_is_lost_on_its_way<F: Fn(&String) -> bool>(
    after: FileManApp,
    before: FileManApp,
    items: Seq<Seq<char>>,
    dest: Seq<char>,
    op: Option<ClipboardOp>,
    on_disk: F,
    effect: Effect,
)
    requires
        app_files::transferring(after, before, items, dest, op, on_disk, effect),
    ensures
        effect is Transfer || effect == Effect::Nothing,
        effect is Transfer ==> {
            let sent = effect->Transfer_items@;
            &&& sent.len() == items.len()
            &&& forall|i: int|
                0 <= i < sent.len() ==> (#[trigger] sent[i]).src@ == items[i] && sent[i].dest_name is None
                    && !sent[i].overwrite
            &&& effect->Transfer_dest@ == dest
            &&& effect->copy == (op == Some(ClipboardOp::Copy))
        },
        effect == Effect::Nothing ==> {
            &&& after.dialog is Some
            &&& after.dialog->0 is PasteConflict
            &&& ({
                let c = after.dialog->0->PasteConflict_0;
                &&& c.dest_dir@ == dest && c.op == op
                &&& c.conflicts@.len() + c.resolved@.len() == items.len()
                &&& forall|x: Seq<char>| #[trigger]
                    items.contains(x) ==> text::texts(c.conflicts@).contains(x)
                        || transfer::sources(c.resolved@).contains(x)
                &&& forall|x: Seq<char>| #[trigger]
                    text::texts(c.conflicts@).contains(x) ==> items.contains(x)
                        && path::file_name_of(x) is Some && session::answered(
                        on_disk,
                        path::joined_path(dest, path::file_name_of(x)->0),
                        true,
                    )
            })
        },
{
    let answers = choose|answers: Seq<bool>| #[trigger]
        transfer::collisions_answered(items, dest, on_disk, answers) && app_files::sorted_out(
            after,
            before,
            transfer::picked(items, answers, true),
            transfer::picked(items, answers, false),
            dest,
            op,
            effect,
        );
    transfer::law_every_item_is_sorted(items, answers);
    let bad = transfer::picked(items, answers, true);
    let good = transfer::picked(items, answers, false);
    if bad.len() == 0 {
        lemma_pick_all(items, answers, false);
        let sent = effect->Transfer_items@;
        assert(transfer::sources(sent) == items);
        assert(transfer::sources(sent).len() == sent.len());
        assert forall|i: int| 0 <= i < sent.len() implies (#[trigger] sent[i]).src@ == items[i] by {
            assert(transfer::sources(sent)[i] == sent[i].src@);
        }
    } else {
        let c = after.dialog->0->PasteConflict_0;
        assert(text::texts(c.conflicts@).len() == c.conflicts@.len());
        assert(transfer::sources(c.resolved@).len() == c.resolved@.len());
        assert forall|x: Seq<char>| #[trigger] text::texts(c.conflicts@).contains(x) implies
            items.contains(x) && path::file_name_of(x) is Some && session::answered(
            on_disk,
            path::joined_path(dest, path::file_name_of(x)->0),
            true,
        ) by {
            lemma_picked_member(items, answers, true, x);
            let i = choose|i: int|
                0 <= i < items.len() && #[trigger] items[i] == x && answers[i] == true;
            assert(transfer::collision_answered(items[i], dest, on_disk, answers[i]));
        }
    }
}

/// Pasting takes along everything on the clipboard but what was cut and is in
/// the folder already. Where anything is left it is sent into the active folder,
/// as a copy exactly where it was copied, or the user is asked first. Where
/// nothing is left, nothing happens.
pub proof fn law_pasting_takes_the_clipboard<F: Fn(&String) -> bool>(
    after: FileManApp,
    before: FileManApp,
    on_disk: F,
    effect: Effect,
)
    requires
        app_files::pasted_from(after, before, on_disk, effect),
    ensures
        ({
            let dest = before.active().path@;
            let op = before.clipboard_op;
            let items = text::texts(before.clipboard@).filter(
                |src: Seq<char>|
                    op != Some(ClipboardOp::Cut) || path::parent_of(src) is None
                        || !path::same_path(path::parent_of(src)->0, dest),
            );
            &&& items.len() == 0 ==> effect == Effect::Nothing && after.dialog == before.dialog
                && after.panes == before.panes
            &&& items.len() > 0 ==> app_files::transferring(
                after,
                before,
                items,
                dest,
                op,
                on_disk,
                effect,
            )
            &&& effect is Transfer ==> {
                &&& effect->Transfer_items@.len() == items.len()
                &&& effect->Transfer_dest@ == dest
                &&& effect->copy == (op == Some(ClipboardOp::Copy))
            }
        }),
{
    let dest = before.active().path@;
    let op = before.clipboard_op;
    let all = text::texts(before.clipboard@);
    let p = |src: Seq<char>|
        op != Some(ClipboardOp::Cut) || path::parent_of(src) is None || !path::same_path(
            path::parent_of(src)->0,
            dest,
        );
    transfer::lemma_pasted(all, dest, op);
    assert((|src: Seq<char>| !transfer::already_there(src, dest, op)) =~= p);
    let items = transfer::pasted(all, dest, op);
    assert(items == all.filter(p));
    if items.len() > 0 {
        law_no_item_is_lost_on_its_way(after, before, items, dest, op, on_disk, effect);
    }
}

/// A transfer that begins sends exactly what it was given, empties the clipboard
/// of what was cut, and keeps what was copied there. Once it ends, the
/// destination and every folder that something is cut from are read again.
pub proof fn law_a_transfer_begins(
    after: FileManApp,
    before: FileManApp,
    items: Seq<TransferItem>,
    dest: Seq<char>,
    op: Option<ClipboardOp>,
    effect: Effect,
)
    requires
        app_files::transfer_started(after, before, items, dest, op, effect),
    ensures
        effect is Transfer,
        effect->Transfer_items@ == items,
        effect->Transfer_dest@ == dest,
        effect->copy <==> op == Some(ClipboardOp::Copy),
        op == Some(ClipboardOp::Cut) ==> after.clipboard@.len() == 0,
        op != Some(ClipboardOp::Cut) ==> after.clipboard == before.clipboard,
        text::texts(after.background_op_dirs@).contains(dest),
        op == Some(ClipboardOp::Cut) ==> forall|i: int|
            0 <= i < items.len() && path::parent_of((#[trigger] items[i]).src@) is Some
                ==> text::texts(after.background_op_dirs@).contains(
                path::parent_of(items[i].src@)->0,
            ),
        after.background_op is Some && after.background_op->0.status == OpStatus::Running,
        after.db == before.db,
{
    let srcs = transfer::sources(items);
    lemma_changed_dirs(srcs, dest, op);
    assert forall|i: int|
        op == Some(ClipboardOp::Cut) && 0 <= i < items.len() && path::parent_of(
            (#[trigger] items[i]).src@,
        ) is Some implies text::texts(after.background_op_dirs@).contains(
        path::parent_of(items[i].src@)->0,
    ) by {
        assert(srcs[i] == items[i].src@);
    }
}

proof fn lemma_changed_dirs(srcs: Seq<Seq<char>>, dest: Seq<char>, op: Option<ClipboardOp>)
    ensures
        transfer::changed_dirs(srcs, dest, op).contains(dest),
        op == Some(ClipboardOp::Cut) ==> forall|i: int|
            0 <= i < srcs.len() && path::parent_of(#[trigger] srcs[i]) is Some
                ==> transfer::changed_dirs(srcs, dest, op).contains(path::parent_of(srcs[i])->0),
    decreases srcs.len(),
{
    let all = transfer::changed_dirs(srcs, dest, op);
    if srcs.len() == 0 || op != Some(ClipboardOp::Cut) {
        assert(all[0] == dest);
    } else {
        let front = srcs.drop_last();
        let some = transfer::changed_dirs(front, dest, op);
        lemma_changed_dirs(front, dest, op);
        assert forall|x: Seq<char>| #[trigger] some.contains(x) implies all.contains(x) by {
            let k = choose|k: int| 0 <= k < some.len() && some[k] == x;
            assert(all[k] == x);
        }
        assert(some.contains(dest));
        assert forall|i: int| 0 <= i < srcs.len() && path::parent_of(#[trigger] srcs[i]) is Some
            implies all.contains(path::parent_of(srcs[i])->0) by {
            if i < front.len() {
                assert(front[i] == srcs[i]);
                assert(some.contains(path::parent_of(front[i])->0));
            } else {
                assert(all[all.len() - 1] == path::parent_of(srcs[i])->0);
            }
        }
    }
}

/// An answer to the question about a taken name settles the item that was asked
/// about, or all of them: to replace marks it so and keeps its name, to keep
/// both gives it a name of its own and replaces nothing. Once none is open the
/// whole batch is sent, with every item that was settled before.
pub proof fn law_an_answer_settles_conflicts<F: Fn(&String) -> bool>(
    after: PasteConflict,
    before: PasteConflict,
    overwrite: bool,
    apply_all: bool,
    on_disk: F,
    i: int,
)
    requires
        transfer::settled(after, before, overwrite, apply_all, on_disk),
    ensures
        after.resolved@.len() + after.conflicts@.len() == before.resolved@.len()
            + before.conflicts@.len(),
        after.dest_dir == before.dest_dir && after.op == before.op,
        0 <= i < before.resolved@.len() ==> after.resolved@[i] == before.resolved@[i],
        before.resolved@.len() <= i < after.resolved@.len() ==> {
            let x = after.resolved@[i];
            &&& x.src@ == before.conflicts@[i - before.resolved@.len()]@
            &&& x.overwrite == overwrite
            &&& x.dest_name is None <==> overwrite
            &&& !overwrite ==> session::answered(
                on_disk,
                path::joined_path(before.dest_dir@, x.dest_name->0@),
                false,
            )
        },
        overwrite && apply_all ==> after.conflicts@.len() == 0,
        !apply_all ==> after.resolved@.len() <= before.resolved@.len() + 1,
        overwrite && before.conflicts@.len() > 0 ==> after.resolved@.len() > before.resolved@.len(),
{
    let was = before.resolved@;
    let now = after.resolved@;
    if 0 <= i < was.len() {
        assert(now.subrange(0, was.len() as int)[i] == now[i]);
    }
    if was.len() <= i < now.len() {
        let k = i - was.len();
        assert(now[was.len() + k] == now[i]);
        assert(transfer::settles(
            now[was.len() + k],
            before.conflicts@[k]@,
            before.dest_dir@,
            now.subrange(0, was.len() + k),
            overwrite,
            on_disk,
        ));
    }
}

/// The name that a copy is kept under has the stem of the source in front and
/// its extension behind, and between them the word copy or a number of two or
/// more in brackets.
pub proof fn law_copies_keep_stem_and_extension(src: Seq<char>, k: nat)
    requires
        path::file_stem_of(src) is Some,
    ensures
        ({
            let stem = path::file_stem_of(src)->0;
            let ext = match path::extension_of(src) {
                Some(e) => seq!['.'] + e,
                None => Seq::empty(),
            };
            &&& transfer::copy_name(src, 1) == stem + " (copy)"@ + ext
            &&& k >= 2 ==> transfer::copy_name(src, k) == stem + " ("@ + text::decimal(k) + ")"@
                + ext
        }),
{
    reveal_strlit(".");
    reveal_strlit("");
    assert("."@ =~= seq!['.']);
    assert(""@ =~= Seq::<char>::empty());
}

// ---------------------------------------------------------------------------
// Deleting, renaming, unpacking
// ---------------------------------------------------------------------------

/// The delete command only asks, and asks about exactly the selected items. What
/// is confirmed is what was asked about.
pub proof fn law_nothing_is_deleted_unasked(
    asked: FileManApp,
    before: FileManApp,
    after: FileManApp,
    paths: Vec<String>,
    effect: Effect,
)
    requires
        app_tasks::delete_asked(asked, before),
    ensures
        before.active().selected@.len() == 0 ==> asked.dialog == before.dialog,
        before.active().selected@.len() > 0 ==> {
            &&& asked.dialog is Some && asked.dialog->0 is ConfirmDelete
            &&& asked.dialog->0->ConfirmDelete_paths@.len() == before.active().selected@.len()
            &&& forall|i: int|
                0 <= i < before.active().selected@.len() ==> (
                #[trigger] asked.dialog->0->ConfirmDelete_paths@[i])@ == path::joined_path(
                    before.active().path@,
                    before.active().selected@[i]@,
                )
        },
        asked.panes == before.panes && asked.db == before.db,
        app_tasks::delete_started(after, asked, paths, effect) ==> effect == (Effect::Delete {
            paths,
        }) && after.dialog is None && after.active().selected@.len() == 0,
{
    assert(browse::selected_paths_of(before.active()).len() == before.active().selected@.len());
    if before.active().selected@.len() > 0 {
        lemma_selected(before, asked.dialog->0->ConfirmDelete_paths@);
    }
}

/// The rename command asks for a new name exactly where one item is selected,
/// and offers the name that it has.
pub proof fn law_renaming_asks_for_one(after: FileManApp, before: FileManApp)
    requires
        app_tasks::rename_asked(after, before),
    ensures
        before.active().selected@.len() != 1 ==> after.dialog == before.dialog,
        before.active().selected@.len() == 1 ==> {
            &&& after.dialog is Some && after.dialog->0 is Rename
            &&& after.dialog->0->Rename_name@ == before.active().selected@[0]@
            &&& after.dialog->0->Rename_path@ == path::joined_path(
                before.active().path@,
                before.active().selected@[0]@,
            )
        },
        after.panes == before.panes && after.db == before.db,
{
}

/// Unpacking works on exactly one selected archive, here into the active folder,
/// and else says why not.
pub proof fn law_unpacking_takes_one_archive(
    after: FileManApp,
    before: FileManApp,
    here: bool,
    effect: Effect,
)
    requires
        app_tasks::extraction_asked(after, before, here, effect),
    ensures
        ({
            let t = before.active();
            let p = path::joined_path(t.path@, t.selected@[0]@);
            &&& t.selected@.len() != 1 || !crate::archive::names_archive(p) <==> effect
                == Effect::Nothing
            &&& effect != Effect::Nothing && here ==> effect is Extract
                && effect->Extract_archive@ == p && effect->Extract_dest@ == t.path@
            &&& effect != Effect::Nothing && !here ==> effect is ExtractTo
                && effect->ExtractTo_archive@ == p
            &&& after.panes == before.panes && after.db == before.db
        }),
{
    let t = before.active();
    let paths = browse::selected_paths_of(t);
    assert(paths.len() == t.selected@.len());
    if paths.len() == 1 {
        assert(paths[0] == path::joined_path(t.path@, text::texts(t.selected@)[0]));
    }
}

// ---------------------------------------------------------------------------
// Dropping
// ---------------------------------------------------------------------------

/// What is dropped on a tab goes into the folder of that tab, and what is
/// dropped beside the tabs into that of the active one. It is moved where the
/// drop says so, and else copied, and no item is lost on its way.
pub proof fn law_a_drop_goes_where_it_falls<F: Fn(&String) -> bool>(
    after: FileManApp,
    before: FileManApp,
    d: PendingDrop,
    on_disk: F,
    effect: Effect,
)
    requires
        before.wf(),
        d.pane < 2,
        d.tab matches Some(t) ==> t < before.panes@[d.pane as int].tabs@.len(),
        app_tasks::drop_taken(after, before, d, on_disk, effect),
    ensures
        ({
            let pane = before.panes@[d.pane as int];
            let dest = pane.tabs@[match d.tab {
                Some(t) => t as int,
                None => pane.active_tab as int,
            }].path@;
            &&& effect is Transfer ==> effect->Transfer_dest@ == dest && effect->copy == !d.is_move
                && effect->Transfer_items@.len() == d.paths@.len()
            &&& effect is Transfer ==> forall|i: int|
                0 <= i < d.paths@.len() ==> (#[trigger] effect->Transfer_items@[i]).src@
                    == d.paths@[i]@
            &&& effect !is Transfer ==> after.dialog is Some && after.dialog->0 is PasteConflict
                && after.dialog->0->PasteConflict_0.dest_dir@ == dest
            &&& after.active_pane == d.pane
        }),
{
    let mid = choose|mid: FileManApp| #[trigger]
        app_tasks::dropped_at(mid, before, d.pane, d.tab) && app_files::transferring(
            after,
            mid,
            text::texts(d.paths@),
            mid.active().path@,
            Some(app_tasks::drop_op(d)),
            on_disk,
            effect,
        );
    law_no_item_is_lost_on_its_way(
        after,
        mid,
        text::texts(d.paths@),
        mid.active().path@,
        Some(app_tasks::drop_op(d)),
        on_disk,
        effect,
    );
    assert(text::texts(d.paths@).len() == d.paths@.len());
    if effect is Transfer {
        assert forall|i: int| 0 <= i < d.paths@.len() implies (
        #[trigger] effect->Transfer_items@[i]).src@ == d.paths@[i]@ by {
            assert(text::texts(d.paths@)[i] == d.paths@[i]@);
        }
    }
}

/// What was dragged to another program is deleted here only where that program
/// moved it, and then exactly what was dragged.
pub proof fn law_only_what_moved_out_is_deleted(
    after: FileManApp,
    before: FileManApp,
    outcome: DragOutOutcome,
    paths: Vec<String>,
    effect: Effect,
)
    requires
        app_tasks::drag_ended(after, before, outcome, paths, effect),
    ensures
        effect != Effect::Nothing <==> outcome == (DragOutOutcome::Dropped { moved: true }),
        effect != Effect::Nothing ==> effect == (Effect::Trash { paths }),
        after.panes == before.panes && after.db == before.db,
{
}

// ---------------------------------------------------------------------------
// The end of an operation
// ---------------------------------------------------------------------------

/// An operation that has ended is gone, what it says is shown, and every tab
/// that shows one of its folders is read again, while the others stay as they
/// are. One that runs on stays, with its latest report.
pub proof fn law_folders_are_read_again_at_the_end(
    after: FileManApp,
    before: FileManApp,
    updates: Seq<ProgressUpdate>,
    statuses: Seq<OpStatus>,
    p: int,
    t: int,
)
    requires
        app_tasks::op_polled(after, before, updates, statuses),
        before.background_op is Some,
        0 <= p < before.panes@.len(),
        0 <= t < before.panes@[p].tabs@.len(),
    ensures
        ({
            let last = if statuses.len() > 0 {
                statuses.last()
            } else {
                before.background_op->0.status
            };
            let was = before.panes@[p].tabs@[t];
            let now = after.panes@[p].tabs@[t];
            &&& last == OpStatus::Running <==> after.background_op is Some
            &&& last == OpStatus::Running ==> after.panes == before.panes && after.status
                == before.status
            &&& last == OpStatus::Running && updates.len() > 0
                ==> after.background_op->0.progress == updates.last()
            &&& last != OpStatus::Running ==> {
                &&& (exists|k: int|
                    0 <= k < before.background_op_dirs@.len() && path::same_path(
                        was.path@,
                        (#[trigger] before.background_op_dirs@[k])@,
                    )) ==> now.listing_dirty
                &&& (forall|k: int|
                    0 <= k < before.background_op_dirs@.len() ==> !path::same_path(
                        was.path@,
                        (#[trigger] before.background_op_dirs@[k])@,
                    )) ==> now.listing_dirty == was.listing_dirty
                &&& now.path == was.path && now.selected == was.selected
                &&& now.listing == was.listing
            }
            &&& last is Completed ==> after.status@ == last->Completed_0@
            &&& last is Failed ==> after.status@ == "Error: "@ + last->Failed_0@
        }),
{
    let last = if statuses.len() > 0 {
        statuses.last()
    } else {
        before.background_op->0.status
    };
    if last != OpStatus::Running {
        let dirs = text::texts(before.background_op_dirs@);
        let was = before.panes@[p].tabs@[t];
        assert(after.panes@[p].tabs@ == app_tasks::tabs_marked(before.panes@[p].tabs@, dirs));
        assert(dirs.len() == before.background_op_dirs@.len());
        if exists|k: int|
            0 <= k < before.background_op_dirs@.len() && path::same_path(
                was.path@,
                (#[trigger] before.background_op_dirs@[k])@,
            ) {
            let k = choose|k: int|
                0 <= k < before.background_op_dirs@.len() && path::same_path(
                    was.path@,
                    (#[trigger] before.background_op_dirs@[k])@,
                );
            assert(path::same_path(was.path@, dirs[k]));
        } else {
            assert forall|k: int| 0 <= k < dirs.len() implies !#[trigger] path::same_path(
                was.path@,
                dirs[k],
            ) by {
                assert(dirs[k] == before.background_op_dirs@[k]@);
            }
        }
    }
}

} // verus!
