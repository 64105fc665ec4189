//! What follows once a question was answered or work outside has ended.

use crate::app::FileManApp;
use crate::app_files::{count_text, tell};
use crate::app_nav::Effect;
use crate::archive::is_archive;
use crate::dialog::Dialog;
use crate::fs_ops::ClipboardOp;
use crate::native_drag::{DragOutOutcome, PendingDrop};
use crate::pane::Pane;
use crate::path::{is_same_path, join, parent};
use crate::progress::{BackgroundOp, OpStatus, ProgressUpdate};
use crate::tab::Tab;
use crate::text::u64_to_string;
use crate::transfer::PasteConflict;
use crate::{app, app_files, app_nav, archive, browse, path, subdirs, text, transfer};
use vstd::prelude::*;

verus! {

// ---------------------------------------------------------------------------
// Reading folders again
// ---------------------------------------------------------------------------

/// `p` is one of `dirs`.
pub open spec fn among(dirs: Seq<Seq<char>>, p: Seq<char>) -> bool {
    exists|k: int| 0 <= k < dirs.len() && #[trigger] path::same_path(p, dirs[k])
}

/// The tabs once those that show one of `dirs` have to be read again.
pub open spec fn tabs_marked(before: Seq<Tab>, dirs: Seq<Seq<char>>) -> Seq<Tab> {
    before.map_values(
        |t: Tab| Tab { listing_dirty: t.listing_dirty || among(dirs, t.path@), ..t },
    )
}

/// Every tab that shows one of `dirs` has to be read again, and what was known
/// of their subfolders is forgotten.
pub open spec fn dirs_marked(
    after: FileManApp,
    before: FileManApp,
    dirs: Seq<Seq<char>>,
) -> bool {
    &&& after.panes@.len() == before.panes@.len()
    &&& forall|i: int|
        0 <= i < before.panes@.len() ==> {
            &&& (#[trigger] after.panes@[i]).tabs@ == tabs_marked(before.panes@[i].tabs@, dirs)
            &&& after.panes@[i].active_tab == before.panes@[i].active_tab
            &&& after.panes@[i].same_address(before.panes@[i])
        }
    &&& forall|q: Seq<char>| #[trigger]
        after.subdirs.state(q) == (if among(dirs, q) {
            subdirs::SubdirState::Unknown
        } else {
            before.subdirs.state(q)
        })
}

impl FileManApp {
    /// Has all of `dirs` read again wherever they are shown.
    pub fn mark_dirs_dirty(&mut self, dirs: &Vec<String>)
        requires
            old(self).wf(),
        ensures
            final(self).wf(),
            dirs_marked(*final(self), *old(self), text::texts(dirs@)),
            *final(self) == (FileManApp {
                panes: final(self).panes,
                subdirs: final(self).subdirs,
                ..*old(self)
            }),
            old(self).synced() ==> final(self).synced(),
    {
        let ghost start = *self;
        let ghost all = text::texts(dirs@);
        let mut i: usize = 0;
        proof {
            let none = all.subrange(0, 0);
            assert forall|j: int| 0 <= j < 2 implies start.panes@[j].tabs@ == tabs_marked(
                #[trigger] start.panes@[j].tabs@,
                none,
            ) by {
                assert(start.panes@[j].tabs@ =~= tabs_marked(start.panes@[j].tabs@, none));
            }
        }
        while i < dirs.len()
            invariant
                i <= dirs.len(),
                self.wf(),
                all == text::texts(dirs@),
                dirs_marked(*self, start, all.subrange(0, i as int)),
                *self == (FileManApp { panes: self.panes, subdirs: self.subdirs, ..start }),
            decreases dirs.len() - i,
        {
            let ghost mid = *self;
            let ghost upto = all.subrange(0, i as int);
            let ghost next = all.subrange(0, i + 1);
            let ghost d = dirs@[i as int]@;
            self.mark_dir_dirty(dirs[i].as_str());
            proof {
                assert forall|p: Seq<char>| among(next, p) == (among(upto, p)
                    || path::same_path(p, d)) by {
                    if among(upto, p) {
                        let k = choose|k: int|
                            0 <= k < upto.len() && #[trigger] path::same_path(p, upto[k]);
                        assert(path::same_path(p, next[k]));
                    }
                    if path::same_path(p, d) {
                        assert(path::same_path(p, next[i as int]));
                    }
                    if among(next, p) {
                        let k = choose|k: int|
                            0 <= k < next.len() && #[trigger] path::same_path(p, next[k]);
                        if k < i {
                            assert(path::same_path(p, upto[k]));
                        }
                    }
                }
                assert forall|j: int| 0 <= j < 2 implies (#[trigger] self.panes@[j]).tabs@
                    == tabs_marked(start.panes@[j].tabs@, next) by {
                    assert(self.panes@[j].tabs@ =~= tabs_marked(start.panes@[j].tabs@, next));
                }
                assert forall|q: Seq<char>| #[trigger]
                    self.subdirs.state(q) == (if among(next, q) {
                        subdirs::SubdirState::Unknown
                    } else {
                        start.subdirs.state(q)
                    }) by {
                    assert(mid.subdirs.state(q) == (if among(upto, q) {
                        subdirs::SubdirState::Unknown
                    } else {
                        start.subdirs.state(q)
                    }));
                }
            }
            i += 1;
        }
        assert(all.subrange(0, i as int) =~= all);
    }
}

// ---------------------------------------------------------------------------
// Background operations
// ---------------------------------------------------------------------------

/// What is said once a background operation has ended.
pub open spec fn end_status(op: OpStatus, before: Seq<char>) -> Seq<char> {
    match op {
        OpStatus::Completed(m) => m@,
        OpStatus::Failed(m) => "Error: "@ + m@,
        _ => before,
    }
}

/// What was reported changes the background operation; once it has ended, its
/// folders are read again and it is gone.
pub open spec fn op_polled(
    after: FileManApp,
    before: FileManApp,
    updates: Seq<ProgressUpdate>,
    statuses: Seq<OpStatus>,
) -> bool {
    match before.background_op {
        None => after == before,
        Some(op) => {
            let status = if statuses.len() > 0 {
                statuses.last()
            } else {
                op.status
            };
            if status == OpStatus::Running {
                &&& (after.background_op matches Some(b) && b.status == OpStatus::Running
                    && b.progress == (if updates.len() > 0 {
                    updates.last()
                } else {
                    op.progress
                }))
                &&& after == (FileManApp { background_op: after.background_op, ..before })
            } else {
                &&& after.background_op is None
                &&& after.background_op_dirs@.len() == 0
                &&& after.dirty
                &&& after.status@ == end_status(status, before.status@)
                &&& dirs_marked(after, before, text::texts(before.background_op_dirs@))
                &&& after == (FileManApp {
                    background_op: after.background_op,
                    background_op_dirs: after.background_op_dirs,
                    dirty: after.dirty,
                    status: after.status,
                    panes: after.panes,
                    subdirs: after.subdirs,
                    ..before
                })
            }
        },
    }
}

/// The progress of a background operation in words.
pub open spec fn progress_words(p: ProgressUpdate) -> Seq<char> {
    text::decimal(p.files_done as nat) + "/"@ + text::decimal(p.files_total as nat) + " files — "@
        + p.current_file@
}

/// Tells the progress of a background operation.
pub fn progress_text(p: &ProgressUpdate) -> (r: String)
    ensures
        r@ == progress_words(*p),
{
    let mut s = u64_to_string(p.files_done);
    s.append("/");
    s.append(u64_to_string(p.files_total).as_str());
    s.append(" files — ");
    s.append(p.current_file.as_str());
    s
}

impl FileManApp {
    /// Takes in what a background operation has reported since the last frame.
    pub fn poll_background_op(&mut self, updates: Vec<ProgressUpdate>, statuses: Vec<OpStatus>)
        requires
            old(self).wf(),
        ensures
            final(self).wf(),
            op_polled(*final(self), *old(self), updates@, statuses@),
            old(self).synced() ==> final(self).synced(),
    {
        let mut op = match self.background_op.take() {
            Some(op) => op,
            None => {
                return ;
            },
        };
        let running: bool = op.poll(updates, statuses);
        if running {
            self.background_op = Some(op);
            return ;
        }
        let mut dirs: Vec<String> = Vec::new();
        core::mem::swap(&mut dirs, &mut self.background_op_dirs);
        self.dirty = true;
        match op.status {
            OpStatus::Completed(m) => {
                self.status = m;
            },
            OpStatus::Failed(m) => {
                self.status = tell("Error: ", m.as_str());
            },
            _ => {},
        }
        self.mark_dirs_dirty(&dirs);
    }
}

// ---------------------------------------------------------------------------
// Name conflicts
// ---------------------------------------------------------------------------

/// What an answer to the conflict dialog does.
pub open spec fn conflict_resolved<F: Fn(&String) -> bool>(
    after: FileManApp,
    before: FileManApp,
    overwrite: bool,
    apply_all: bool,
    on_disk: F,
    effect: Effect,
) -> bool {
    match before.dialog {
        Some(Dialog::PasteConflict(c)) => exists|d: PasteConflict| #[trigger]
            transfer::settled(d, c, overwrite, apply_all, on_disk) && if d.conflicts@.len() == 0 {
                app_files::transfer_started(
                    after,
                    (FileManApp { dialog: None, ..before }),
                    d.resolved@,
                    d.dest_dir@,
                    d.op,
                    effect,
                )
            } else {
                &&& after == (FileManApp {
                    dialog: Some(Dialog::PasteConflict(d)),
                    dialog_just_opened: true,
                    ..before
                })
                &&& effect == Effect::Nothing
            },
        _ => after == (FileManApp { dialog: None, ..before }) && effect == Effect::Nothing,
    }
}

impl FileManApp {
    /// Applies the user's choice from the conflict dialog to either just the
    /// shown item or, when `apply_all` (Shift+click), every remaining
    /// conflict. When the last conflict is resolved, the whole batch is
    /// started.
    pub fn resolve_paste_conflict<F: Fn(&String) -> bool>(
        &mut self,
        overwrite: bool,
        apply_all: bool,
        on_disk: &F,
    ) -> (r: Effect)
        requires
            old(self).wf(),
            forall|s: &String| call_requires(*on_disk, (s,)),
        ensures
            final(self).wf(),
            conflict_resolved(*final(self), *old(self), overwrite, apply_all, *on_disk, r),
            old(self).synced() ==> final(self).synced(),
    {
        let taken = self.dialog.take();
        let mut d = match taken {
            Some(Dialog::PasteConflict(c)) => c,
            _ => {
                return Effect::Nothing;
            },
        };
        let ghost c = d;
        d.resolve(overwrite, apply_all, on_disk);
        let ghost done = d;
        assert(transfer::settled(done, c, overwrite, apply_all, *on_disk));
        if d.conflicts.len() == 0 {
            self.start_transfer(d.resolved, d.dest_dir, d.op)
        } else {
            self.dialog_just_opened = true;
            self.dialog = Some(Dialog::PasteConflict(d));
            Effect::Nothing
        }
    }

    /// Gives up a transfer whose conflicts are not decided.
    pub fn cancel_paste(&mut self)
        requires
            old(self).wf(),
        ensures
            final(self).wf(),
            final(self).dialog is None,
            final(self).status@ == "Transfer cancelled — nothing was changed"@,
            *final(self) == (FileManApp {
                dialog: final(self).dialog,
                status: final(self).status,
                ..*old(self)
            }),
            old(self).synced() ==> final(self).synced(),
    {
        self.dialog = None;
        self.status = "Transfer cancelled — nothing was changed".to_owned();
    }
}

// ---------------------------------------------------------------------------
// Drag and drop
// ---------------------------------------------------------------------------

/// Something was dropped on pane `p`, on tab `tab` where there is one: the
/// target is active now.
pub open spec fn dropped_at(
    after: FileManApp,
    before: FileManApp,
    p: usize,
    tab: Option<usize>,
) -> bool {
    let was = before.panes@[p as int];
    let now = after.panes@[p as int];
    &&& after.active_pane == p
    &&& after.panes@.len() == before.panes@.len()
    &&& forall|i: int|
        0 <= i < before.panes@.len() && i != p ==> #[trigger] after.panes@[i] == before.panes@[i]
    &&& now == (Pane {
        active_tab: match tab {
            Some(t) => t,
            None => was.active_tab,
        },
        ..was
    })
    &&& after.dirty == (before.dirty || (tab matches Some(t) && t != was.active_tab))
    &&& after == (FileManApp {
        panes: after.panes,
        active_pane: after.active_pane,
        dirty: after.dirty,
        ..before
    })
}

/// What a drop asks for.
pub open spec fn drop_op(d: PendingDrop) -> ClipboardOp {
    if d.is_move {
        ClipboardOp::Cut
    } else {
        ClipboardOp::Copy
    }
}

/// What a drop from another program does.
pub open spec fn drop_taken<F: Fn(&String) -> bool>(
    after: FileManApp,
    before: FileManApp,
    d: PendingDrop,
    on_disk: F,
    effect: Effect,
) -> bool {
    exists|mid: FileManApp| #[trigger]
        dropped_at(mid, before, d.pane, d.tab) && app_files::transferring(
            after,
            mid,
            text::texts(d.paths@),
            mid.active().path@,
            Some(drop_op(d)),
            on_disk,
            effect,
        )
}

/// The selection of pane `p`'s active tab is gone.
pub open spec fn selection_cleared(after: FileManApp, before: FileManApp, p: int) -> bool {
    &&& after.panes@.len() == before.panes@.len()
    &&& forall|i: int|
        0 <= i < before.panes@.len() && i != p ==> #[trigger] after.panes@[i] == before.panes@[i]
    &&& app::active_became(after.panes@[p], before.panes@[p], after.panes@[p].active())
    &&& after.panes@[p].active().same_but_selection(before.panes@[p].active())
    &&& after.panes@[p].active().selected@.len() == 0
    &&& after == (FileManApp { panes: after.panes, ..before })
}

/// What a drop of our own files on one of our own tabs does, before the
/// selection that was dragged is cleared.
pub open spec fn own_drop<F: Fn(&String) -> bool>(
    after: FileManApp,
    before: FileManApp,
    d: PendingDrop,
    from_dir: Seq<char>,
    on_disk: F,
    effect: Effect,
) -> bool {
    exists|mid: FileManApp| #[trigger]
        dropped_at(mid, before, d.pane, d.tab) && if path::same_path(mid.active().path@, from_dir) {
            app_files::said(after, mid, "Source and destination are the same folder"@) && effect
                == Effect::Nothing
        } else {
            app_files::transferring(
                after,
                (FileManApp {
                    clipboard: d.paths,
                    clipboard_op: Some(drop_op(d)),
                    ..mid
                }),
                text::texts(d.paths@),
                mid.active().path@,
                Some(drop_op(d)),
                on_disk,
                effect,
            )
        }
}

/// What a drag out of the window does once it has ended.
pub open spec fn drag_ended(
    after: FileManApp,
    before: FileManApp,
    outcome: DragOutOutcome,
    paths: Vec<String>,
    effect: Effect,
) -> bool {
    match outcome {
        DragOutOutcome::Dropped { moved } => if moved {
            after == before && effect == Effect::Trash { paths }
        } else {
            app_files::said(
                after,
                before,
                app_files::counted("Copied "@, paths@.len(), " item(s) to another application"@),
            ) && effect == Effect::Nothing
        },
        DragOutOutcome::Cancelled => after == before && effect == Effect::Nothing,
        DragOutOutcome::Failed(e) => app_files::said(after, before, "Drag failed: "@ + e@)
            && effect == Effect::Nothing,
    }
}

/// The folders that hold `paths`.
pub open spec fn parents_of(paths: Seq<Seq<char>>) -> Seq<Seq<char>>
    decreases paths.len(),
{
    if paths.len() == 0 {
        Seq::empty()
    } else {
        let rest = parents_of(paths.drop_last());
        match path::parent_of(paths.last()) {
            Some(up) => rest.push(up),
            None => rest,
        }
    }
}

fn parents(paths: &Vec<String>) -> (r: Vec<String>)
    ensures
        text::texts(r@) == parents_of(text::texts(paths@)),
{
    let ghost all = text::texts(paths@);
    let mut r: Vec<String> = Vec::new();
    let mut i: usize = 0;
    assert(text::texts(r@) =~= parents_of(all.subrange(0, 0)));
    while i < paths.len()
        invariant
            i <= paths.len(),
            all == text::texts(paths@),
            text::texts(r@) == parents_of(all.subrange(0, i as int)),
        decreases paths.len() - i,
    {
        let ghost upto = all.subrange(0, i + 1);
        assert(upto.drop_last() =~= all.subrange(0, i as int));
        let ghost had = r@;
        match parent(paths[i].as_str()) {
            Some(up) => {
                r.push(up);
                assert(text::texts(r@) =~= text::texts(had).push(up@));
            },
            None => {},
        }
        i += 1;
    }
    assert(all.subrange(0, i as int) =~= all);
    r
}

impl FileManApp {
    /// Resolves a drop's target pane/tab into the destination folder, switching
    /// to that tab first if the drop landed on one specifically.
    pub fn resolve_drop_dest(&mut self, pane: usize, tab: Option<usize>) -> (r: String)
        requires
            old(self).wf(),
            pane < 2,
            tab matches Some(t) ==> t < old(self).panes@[pane as int].tabs@.len(),
        ensures
            final(self).wf(),
            dropped_at(*final(self), *old(self), pane, tab),
            r == final(self).active().path,
            old(self).synced() ==> final(self).synced(),
    {
        self.active_pane = pane;
        if let Some(t) = tab {
            if self.panes[pane].active_tab != t {
                self.panes[pane].active_tab = t;
                self.dirty = true;
            }
        }
        self.active_tab_dir()
    }

    /// Takes in a drop that landed on one of our own panes/tabs without us
    /// having started it, i.e. one from another program.
    pub fn process_pending_native_drop<F: Fn(&String) -> bool>(
        &mut self,
        pending: Option<PendingDrop>,
        on_disk: &F,
    ) -> (r: Effect)
        requires
            old(self).wf(),
            pending matches Some(d) ==> d.pane < 2 && (d.tab matches Some(t) ==> t
                < old(self).panes@[d.pane as int].tabs@.len()),
            forall|s: &String| call_requires(*on_disk, (s,)),
        ensures
            final(self).wf(),
            match pending {
                Some(d) => drop_taken(*final(self), *old(self), d, *on_disk, r),
                None => *final(self) == *old(self) && r == Effect::Nothing,
            },
            old(self).synced() ==> final(self).synced(),
    {
        match pending {
            Some(d) => {
                let dest = self.resolve_drop_dest(d.pane, d.tab);
                let ghost mid = *self;
                assert(dropped_at(mid, *old(self), d.pane, d.tab));
                let op = if d.is_move {
                    ClipboardOp::Cut
                } else {
                    ClipboardOp::Copy
                };
                self.transfer_items(d.paths, dest, Some(op), on_disk)
            },
            None => Effect::Nothing,
        }
    }

    fn take_own_drop<F: Fn(&String) -> bool>(
        &mut self,
        d: PendingDrop,
        from_dir: &str,
        on_disk: &F,
    ) -> (r: Effect)
        requires
            old(self).wf(),
            d.pane < 2,
            d.tab matches Some(t) ==> t < old(self).panes@[d.pane as int].tabs@.len(),
            forall|s: &String| call_requires(*on_disk, (s,)),
        ensures
            final(self).wf(),
            own_drop(*final(self), *old(self), d, from_dir@, *on_disk, r),
            old(self).synced() ==> final(self).synced(),
    {
        let dest = self.resolve_drop_dest(d.pane, d.tab);
        let ghost mid = *self;
        assert(dropped_at(mid, *old(self), d.pane, d.tab));
        if is_same_path(dest.as_str(), from_dir) {
            self.status = "Source and destination are the same folder".to_owned();
            Effect::Nothing
        } else {
            let op = if d.is_move {
                ClipboardOp::Cut
            } else {
                ClipboardOp::Copy
            };
            let items = text::clone_strings(&d.paths);
            self.clipboard = d.paths;
            self.clipboard_op = Some(op);
            self.transfer_items(items, dest, Some(op), on_disk)
        }
    }

    /// Handles the end of a drag of `paths`, which came from `from_dir` in
    /// `from_pane`. Either they were dropped back onto one of our own
    /// panes/tabs (`pending`), or onto another application (the sources then go
    /// to the recycle bin on a move, matching Explorer's drag semantics), or
    /// the drag was cancelled or failed.
    pub fn finish_native_drag<F: Fn(&String) -> bool>(
        &mut self,
        from_pane: usize,
        paths: Vec<String>,
        from_dir: &str,
        outcome: DragOutOutcome,
        pending: Option<PendingDrop>,
        on_disk: &F,
    ) -> (r: Effect)
        requires
            old(self).wf(),
            from_pane < 2,
            pending matches Some(d) ==> d.pane < 2 && (d.tab matches Some(t) ==> t
                < old(self).panes@[d.pane as int].tabs@.len()),
            forall|s: &String| call_requires(*on_disk, (s,)),
        ensures
            final(self).wf(),
            match pending {
                Some(d) => exists|mid: FileManApp| #[trigger]
                    own_drop(mid, *old(self), d, from_dir@, *on_disk, r) && selection_cleared(
                        *final(self),
                        mid,
                        from_pane as int,
                    ),
                None => drag_ended(*final(self), *old(self), outcome, paths, r),
            },
            old(self).synced() ==> final(self).synced(),
    {
        match pending {
            Some(d) => {
                let r = self.take_own_drop(d, from_dir, on_disk);
                let ghost mid = *self;
                let t = self.panes[from_pane].active_tab_mut();
                t.clear_selection();
                assert(own_drop(mid, *old(self), d, from_dir@, *on_disk, r));
                assert(selection_cleared(*self, mid, from_pane as int));
                r
            },
            None => match outcome {
                DragOutOutcome::Dropped { moved } => {
                    if moved {
                        Effect::Trash { paths }
                    } else {
                        self.status = count_text(
                            "Copied ",
                            paths.len(),
                            " item(s) to another application",
                        );
                        Effect::Nothing
                    }
                },
                DragOutOutcome::Cancelled => Effect::Nothing,
                DragOutOutcome::Failed(e) => {
                    self.status = tell("Drag failed: ", e.as_str());
                    Effect::Nothing
                },
            },
        }
    }

    /// Handles the end of the deletion of files that another application has
    /// moved; `error` says what went wrong, if anything.
    pub fn moved_out(&mut self, paths: &Vec<String>, error: Option<String>)
        requires
            old(self).wf(),
        ensures
            final(self).wf(),
            match error {
                None => {
                    &&& dirs_marked(*final(self), *old(self), parents_of(text::texts(paths@)))
                    &&& final(self).status@ == app_files::counted(
                        "Moved "@,
                        paths@.len(),
                        " item(s) out of FileMan"@,
                    )
                    &&& *final(self) == (FileManApp {
                        panes: final(self).panes,
                        subdirs: final(self).subdirs,
                        status: final(self).status,
                        ..*old(self)
                    })
                },
                Some(e) => app_files::said(*final(self), *old(self), "Drop move failed: "@ + e@),
            },
            old(self).synced() ==> final(self).synced(),
    {
        match error {
            None => {
                let dirs = parents(paths);
                self.mark_dirs_dirty(&dirs);
                self.status = count_text("Moved ", paths.len(), " item(s) out of FileMan");
            },
            Some(e) => {
                self.status = tell("Drop move failed: ", e.as_str());
            },
        }
    }
}

// ---------------------------------------------------------------------------
// Deleting, renaming, unpacking
// ---------------------------------------------------------------------------

/// What the delete action does.
pub open spec fn delete_asked(after: FileManApp, before: FileManApp) -> bool {
    let paths = browse::selected_paths_of(before.active());
    if paths.len() == 0 {
        app_files::said(after, before, "Nothing selected"@)
    } else {
        &&& app_nav::asked(after, before)
        &&& (after.dialog matches Some(Dialog::ConfirmDelete { paths: p }) && text::texts(p@)
            == paths)
    }
}

/// What confirming a deletion does.
pub open spec fn delete_started(
    after: FileManApp,
    before: FileManApp,
    paths: Vec<String>,
    effect: Effect,
) -> bool {
    &&& after.dialog is None
    &&& after.active_is_now(before, after.active())
    &&& after.active().same_but_selection(before.active())
    &&& after.active().selected@.len() == 0
    &&& after.status@ == app_files::counted("Deleting "@, paths@.len(), " item(s)…"@)
    &&& text::texts(after.background_op_dirs@) == seq![before.active().path@]
    &&& (after.background_op matches Some(b) && b.progress.tells(0, paths@.len() as u64, ""@)
        && b.status == OpStatus::Running)
    &&& after == (FileManApp {
        dialog: after.dialog,
        panes: after.panes,
        status: after.status,
        background_op: after.background_op,
        background_op_dirs: after.background_op_dirs,
        ..before
    })
    &&& effect == Effect::Delete { paths }
}

/// What the rename action does.
pub open spec fn rename_asked(after: FileManApp, before: FileManApp) -> bool {
    let t = before.active();
    if t.selected@.len() != 1 {
        app_files::said(after, before, "Select exactly one item to rename"@)
    } else {
        &&& app_nav::asked(after, before)
        &&& (after.dialog matches Some(Dialog::Rename { path: p, name }) && name@
            == t.selected@[0]@ && p@ == path::joined_path(t.path@, name@))
    }
}

/// What is wrong with unpacking the selection, if anything.
pub open spec fn extraction_problem(a: FileManApp) -> Option<Seq<char>> {
    let paths = browse::selected_paths_of(a.active());
    if paths.len() != 1 {
        Some("Select exactly one archive to extract"@)
    } else if !archive::names_archive(paths[0]) {
        Some("Selected file is not a supported archive"@)
    } else {
        None
    }
}

/// What the extract actions do: `here` unpacks into the active folder, the
/// other one asks where to.
pub open spec fn extraction_asked(
    after: FileManApp,
    before: FileManApp,
    here: bool,
    effect: Effect,
) -> bool {
    match extraction_problem(before) {
        Some(problem) => app_files::said(after, before, problem) && effect == Effect::Nothing,
        None => {
            let paths = browse::selected_paths_of(before.active());
            &&& after == before
            &&& if here {
                effect matches Effect::Extract { archive, dest } && archive@ == paths[0] && dest@
                    == before.active().path@
            } else {
                effect matches Effect::ExtractTo { archive } && archive@ == paths[0]
            }
        },
    }
}

impl FileManApp {
    /// Asks whether to delete the selection.
    pub fn delete_selection(&mut self)
        requires
            old(self).wf(),
        ensures
            final(self).wf(),
            delete_asked(*final(self), *old(self)),
            old(self).synced() ==> final(self).synced(),
    {
        let paths = self.selected_paths();
        assert(text::texts(paths@).len() == paths@.len());
        if paths.len() == 0 {
            self.status = "Nothing selected".to_owned();
            return ;
        }
        self.dialog_just_opened = true;
        self.dialog = Some(Dialog::ConfirmDelete { paths });
    }

    /// Starts a deletion that was confirmed.
    pub fn confirm_delete(&mut self) -> (r: Effect)
        requires
            old(self).wf(),
        ensures
            final(self).wf(),
            match old(self).dialog {
                Some(Dialog::ConfirmDelete { paths }) => delete_started(
                    *final(self),
                    *old(self),
                    paths,
                    r,
                ),
                _ => *final(self) == (FileManApp { dialog: None, ..*old(self) }) && r
                    == Effect::Nothing,
            },
            old(self).synced() ==> final(self).synced(),
    {
        let taken = self.dialog.take();
        let paths = match taken {
            Some(Dialog::ConfirmDelete { paths }) => paths,
            _ => {
                return Effect::Nothing;
            },
        };
        let dir = self.active_tab_dir();
        let ap: usize = self.active_pane;
        let t = self.panes[ap].active_tab_mut();
        t.clear_selection();
        self.status = count_text("Deleting ", paths.len(), " item(s)…");
        let mut dirs: Vec<String> = Vec::new();
        dirs.push(dir);
        assert(text::texts(dirs@) =~= seq![dir@]);
        self.background_op_dirs = dirs;
        self.background_op = Some(BackgroundOp::deleting(paths.len() as u64));
        Effect::Delete { paths }
    }

    /// Asks for the new name of the selected item.
    pub fn begin_rename(&mut self)
        requires
            old(self).wf(),
        ensures
            final(self).wf(),
            rename_asked(*final(self), *old(self)),
            old(self).synced() ==> final(self).synced(),
    {
        let t = self.panes[self.active_pane].active_tab();
        if t.selected.len() != 1 {
            self.status = "Select exactly one item to rename".to_owned();
            return ;
        }
        let name = t.selected[0].clone();
        let p = join(t.path.as_str(), name.as_str());
        self.dialog_just_opened = true;
        self.dialog = Some(Dialog::Rename { path: p, name });
    }

    fn archive_to_extract(&mut self) -> (r: Option<String>)
        requires
            old(self).wf(),
        ensures
            final(self).wf(),
            match extraction_problem(*old(self)) {
                Some(problem) => app_files::said(*final(self), *old(self), problem) && r is None,
                None => *final(self) == *old(self) && (r matches Some(p) && p@
                    == browse::selected_paths_of(old(self).active())[0]),
            },
            old(self).synced() ==> final(self).synced(),
    {
        let mut paths = self.selected_paths();
        assert(text::texts(paths@).len() == paths@.len());
        if paths.len() != 1 {
            self.status = "Select exactly one archive to extract".to_owned();
            return None;
        }
        assert(paths@[0]@ == text::texts(paths@)[0]);
        let p = paths.remove(0);
        if !is_archive(p.as_str()) {
            self.status = "Selected file is not a supported archive".to_owned();
            return None;
        }
        Some(p)
    }

    /// Extracts the selected archive into the current directory.
    pub fn extract_here(&mut self) -> (r: Effect)
        requires
            old(self).wf(),
        ensures
            final(self).wf(),
            extraction_asked(*final(self), *old(self), true, r),
            old(self).synced() ==> final(self).synced(),
    {
        match self.archive_to_extract() {
            Some(archive) => {
                let dest = self.active_tab_dir();
                Effect::Extract { archive, dest }
            },
            None => Effect::Nothing,
        }
    }

    /// Extracts the selected archive to a user-chosen destination folder.
    pub fn extract_to(&mut self) -> (r: Effect)
        requires
            old(self).wf(),
        ensures
            final(self).wf(),
            extraction_asked(*final(self), *old(self), false, r),
            old(self).synced() ==> final(self).synced(),
    {
        match self.archive_to_extract() {
            Some(archive) => Effect::ExtractTo { archive },
            None => Effect::Nothing,
        }
    }

    /// Handles the end of an extraction into `dest`; `error` says what went
    /// wrong, if anything.
    pub fn extracted(&mut self, dest: &str, error: Option<String>)
        requires
            old(self).wf(),
        ensures
            final(self).wf(),
            match error {
                None => {
                    &&& final(self).status@ == "Extracted into "@ + dest@
                    &&& final(self).dirty
                    &&& exists|mid: FileManApp| #[trigger]
                        selection_cleared(mid, *old(self), old(self).active_pane as int)
                            && app_nav::panes_marked(final(self).panes@, mid.panes@, dest@)
                    &&& app_nav::forgotten(final(self).subdirs, old(self).subdirs, dest@)
                    &&& *final(self) == (FileManApp {
                        panes: final(self).panes,
                        subdirs: final(self).subdirs,
                        dirty: final(self).dirty,
                        status: final(self).status,
                        ..*old(self)
                    })
                },
                Some(e) => app_files::said(*final(self), *old(self), "Extraction failed: "@ + e@),
            },
            old(self).synced() ==> final(self).synced(),
    {
        match error {
            None => {
                let ap: usize = self.active_pane;
                let t = self.panes[ap].active_tab_mut();
                t.clear_selection();
                let ghost mid = *self;
                assert(selection_cleared(mid, *old(self), ap as int));
                self.status = tell("Extracted into ", dest);
                self.dirty = true;
                self.mark_dir_dirty(dest);
            },
            Some(e) => {
                self.status = tell("Extraction failed: ", e.as_str());
            },
        }
    }
}

} // verus!
