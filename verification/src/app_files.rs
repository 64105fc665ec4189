//! What is done to files: the clipboard, transfers, drag and drop, deleting,
//! renaming and unpacking.

use crate::app::FileManApp;
use crate::app_nav::Effect;
use crate::browse::selected_paths;
use crate::dialog::Dialog;
use crate::fs_ops::ClipboardOp;
use crate::native_drag::extract_paths;
use crate::progress::{BackgroundOp, OpStatus, TransferItem};
use crate::text::{decode_utf16, usize_to_string};
use crate::transfer::{
    clipboard_text, paste_items, sort_out, transfer_dirs, transfer_status, PasteConflict,
};
use crate::{app_nav, browse, native_drag, text, transfer};
use vstd::prelude::*;

verus! {

/// The texts of UTF-16 file names.
pub open spec fn wide_names(names: Seq<Vec<u16>>) -> Seq<Seq<char>> {
    names.map_values(|u: Vec<u16>| text::utf16_text(u@))
}

/// The files that another program has put on the clipboard, from their names
/// as Windows gives them: `None` where there are no files.
pub fn read_os_clipboard_hdrop(names: Option<Vec<Vec<u16>>>) -> (r: Option<Vec<String>>)
    ensures
        match names {
            None => r is None,
            Some(list) => {
                let paths = native_drag::nonempty(wide_names(list@));
                match r {
                    Some(v) => paths.len() > 0 && text::texts(v@) == paths,
                    None => paths.len() == 0,
                }
            },
        },
{
    let list = match names {
        Some(list) => list,
        None => {
            return None;
        },
    };
    let mut decoded: Vec<String> = Vec::new();
    let mut i: usize = 0;
    while i < list.len()
        invariant
            i <= list.len(),
            decoded@.len() == i,
            forall|j: int|
                0 <= j < i ==> (#[trigger] decoded@[j])@ == text::utf16_text(list@[j]@),
        decreases list.len() - i,
    {
        let s = decode_utf16(&list[i], list[i].len());
        assert(list@[i as int]@.subrange(0, list@[i as int]@.len() as int)
            =~= list@[i as int]@);
        decoded.push(s);
        i += 1;
    }
    assert(text::texts(decoded@) =~= wide_names(list@));
    let paths = extract_paths(decoded);
    assert(text::texts(paths@).len() == paths@.len());
    if paths.len() == 0 {
        None
    } else {
        Some(paths)
    }
}

/// A number of items between two pieces of text.
pub open spec fn counted(before: Seq<char>, n: nat, after: Seq<char>) -> Seq<char> {
    before + text::decimal(n) + after
}

/// Writes a number of items between two pieces of text.
pub fn count_text(before: &str, n: usize, after: &str) -> (r: String)
    ensures
        r@ == counted(before@, n as nat, after@),
{
    let mut s = before.to_owned();
    s.append(usize_to_string(n).as_str());
    s.append(after);
    s
}

/// Text followed by more text.
pub fn tell(what: &str, detail: &str) -> (r: String)
    ensures
        r@ == what@ + detail@,
{
    let mut s = what.to_owned();
    s.append(detail);
    s
}

// ---------------------------------------------------------------------------
// Clipboard
// ---------------------------------------------------------------------------

/// Only the status has changed.
pub open spec fn said(after: FileManApp, before: FileManApp, status: Seq<char>) -> bool {
    after.status@ == status && after == (FileManApp { status: after.status, ..before })
}

/// The effect is to put `s` on the system clipboard.
pub open spec fn copies_text(effect: Effect, s: Seq<char>) -> bool {
    effect matches Effect::CopyText(t) && t@ == s
}

/// What copying (or cutting) the selection does.
pub open spec fn put_on_clipboard(
    after: FileManApp,
    before: FileManApp,
    op: ClipboardOp,
    effect: Effect,
) -> bool {
    let paths = browse::selected_paths_of(before.active());
    if paths.len() == 0 {
        said(after, before, "Nothing selected"@) && effect == Effect::Nothing
    } else {
        &&& text::texts(after.clipboard@) == paths
        &&& after.clipboard_op == Some(op)
        &&& after.status@ == counted(
            if op == ClipboardOp::Copy {
                "Copied "@
            } else {
                "Cut "@
            },
            paths.len(),
            " item(s)"@,
        )
        &&& after == (FileManApp {
            clipboard: after.clipboard,
            clipboard_op: after.clipboard_op,
            status: after.status,
            ..before
        })
        &&& copies_text(effect, text::joined(paths, "\n"@))
    }
}

/// What copying the paths of the selection as text does.
pub open spec fn copied_names(after: FileManApp, before: FileManApp, effect: Effect) -> bool {
    let paths = browse::selected_paths_of(before.active());
    if paths.len() == 0 {
        said(after, before, "Nothing selected"@) && effect == Effect::Nothing
    } else {
        said(after, before, "File path copied"@) && copies_text(
            effect,
            text::joined(paths, "\n"@),
        )
    }
}

// ---------------------------------------------------------------------------
// Transfers
// ---------------------------------------------------------------------------

/// A batch of files is being copied or moved into `dest`.
pub open spec fn transfer_started(
    after: FileManApp,
    before: FileManApp,
    items: Seq<TransferItem>,
    dest: Seq<char>,
    op: Option<ClipboardOp>,
    effect: Effect,
) -> bool {
    &&& text::texts(after.background_op_dirs@) == transfer::changed_dirs(
        transfer::sources(items),
        dest,
        op,
    )
    &&& (after.background_op matches Some(b) && b.progress.tells(0, 0, "Counting…"@) && b.status
        == OpStatus::Running)
    &&& after.status@ == transfer::transfer_status_text(dest, op)
    &&& if op == Some(ClipboardOp::Cut) {
        after.clipboard@.len() == 0
    } else {
        after.clipboard == before.clipboard
    }
    &&& after.active_is_now(before, after.active())
    &&& after.active().same_but_selection(before.active())
    &&& after.active().selected@.len() == 0
    &&& (effect matches Effect::Transfer { items: sent, dest: to, copy } && sent@ == items && to@
        == dest && copy == (op == Some(ClipboardOp::Copy)))
    &&& after == (FileManApp {
        background_op: after.background_op,
        background_op_dirs: after.background_op_dirs,
        status: after.status,
        clipboard: after.clipboard,
        panes: after.panes,
        ..before
    })
}

/// The user is asked what to do with `conflicts`.
pub open spec fn conflict_asked(
    after: FileManApp,
    before: FileManApp,
    conflicts: Seq<Seq<char>>,
    resolved: Seq<Seq<char>>,
    dest: Seq<char>,
    op: Option<ClipboardOp>,
    effect: Effect,
) -> bool {
    &&& app_nav::asked(after, before)
    &&& (after.dialog matches Some(Dialog::PasteConflict(c)) && text::texts(c.conflicts@)
        == conflicts && transfer::sources(c.resolved@) == resolved && transfer::all_plain(
        c.resolved@,
    ) && c.dest_dir@ == dest && c.op == op)
    &&& effect == Effect::Nothing
}

/// `items` are on their way into `dest`, or the user is asked about those whose
/// names are taken there.
pub open spec fn transferring<F: Fn(&String) -> bool>(
    after: FileManApp,
    before: FileManApp,
    items: Seq<Seq<char>>,
    dest: Seq<char>,
    op: Option<ClipboardOp>,
    on_disk: F,
    effect: Effect,
) -> bool {
    exists|answers: Seq<bool>| #[trigger]
        transfer::collisions_answered(items, dest, on_disk, answers) && sorted_out(
            after,
            before,
            transfer::picked(items, answers, true),
            transfer::picked(items, answers, false),
            dest,
            op,
            effect,
        )
}

/// What a batch becomes: `clear` has free names in `dest`, `conflicts` has not.
pub open spec fn sorted_out(
    after: FileManApp,
    before: FileManApp,
    conflicts: Seq<Seq<char>>,
    clear: Seq<Seq<char>>,
    dest: Seq<char>,
    op: Option<ClipboardOp>,
    effect: Effect,
) -> bool {
    if conflicts.len() == 0 {
        exists|sent: Seq<TransferItem>| #[trigger]
            transfer_started(after, before, sent, dest, op, effect) && transfer::sources(sent)
                == clear && transfer::all_plain(sent)
    } else {
        conflict_asked(after, before, conflicts, clear, dest, op, effect)
    }
}

/// What pasting the (nonempty) clipboard into the active folder does.
pub open spec fn pasted_from<F: Fn(&String) -> bool>(
    after: FileManApp,
    before: FileManApp,
    on_disk: F,
    effect: Effect,
) -> bool {
    let dest = before.active().path@;
    let items = transfer::pasted(text::texts(before.clipboard@), dest, before.clipboard_op);
    if items.len() == 0 {
        said(after, before, "Nothing to paste"@) && effect == Effect::Nothing
    } else {
        transferring(after, before, items, dest, before.clipboard_op, on_disk, effect)
    }
}

/// The clipboard of the system, `paths`, was taken over.
pub open spec fn imported(after: FileManApp, before: FileManApp, paths: Vec<String>) -> bool {
    &&& after.clipboard == paths
    &&& after.clipboard_op == Some(ClipboardOp::Copy)
    &&& after.status@ == counted("Imported "@, paths@.len(), " item(s) from clipboard"@)
    &&& after == (FileManApp {
        clipboard: after.clipboard,
        clipboard_op: after.clipboard_op,
        status: after.status,
        ..before
    })
}

/// What the paste action does; `os` are the files on the system's clipboard.
pub open spec fn pasted_clipboard<F: Fn(&String) -> bool>(
    after: FileManApp,
    before: FileManApp,
    os: Option<Vec<String>>,
    on_disk: F,
    effect: Effect,
) -> bool {
    if before.clipboard@.len() > 0 {
        pasted_from(after, before, on_disk, effect)
    } else {
        match os {
            Some(paths) => if paths@.len() == 0 {
                said(after, before, "Clipboard is empty"@) && effect == Effect::Nothing
            } else {
                exists|mid: FileManApp| #[trigger]
                    imported(mid, before, paths) && pasted_from(after, mid, on_disk, effect)
            },
            None => said(after, before, "Clipboard is empty"@) && effect == Effect::Nothing,
        }
    }
}

impl FileManApp {
    /// The paths of the selected entries of the active tab.
    pub fn selected_paths(&self) -> (r: Vec<String>)
        requires
            self.wf(),
        ensures
            text::texts(r@) == browse::selected_paths_of(self.active()),
            r@.len() == self.active().selected@.len(),
    {
        let r = selected_paths(self.panes[self.active_pane].active_tab());
        assert(text::texts(r@).len() == r@.len());
        r
    }

    fn take_selection(&mut self, op: ClipboardOp, verb: &str) -> (r: Effect)
        requires
            old(self).wf(),
            verb@ == (if op == ClipboardOp::Copy {
                "Copied "@
            } else {
                "Cut "@
            }),
        ensures
            final(self).wf(),
            put_on_clipboard(*final(self), *old(self), op, r),
            old(self).synced() ==> final(self).synced(),
    {
        let paths = self.selected_paths();
        assert(text::texts(paths@).len() == paths@.len());
        if paths.len() == 0 {
            self.status = "Nothing selected".to_owned();
            return Effect::Nothing;
        }
        self.status = count_text(verb, paths.len(), " item(s)");
        let t = clipboard_text(&paths);
        self.clipboard = paths;
        self.clipboard_op = Some(op);
        Effect::CopyText(t)
    }

    /// Puts the selection on the clipboard, to be copied. The paths also go to
    /// the system's clipboard as text.
    pub fn copy_selection(&mut self) -> (r: Effect)
        requires
            old(self).wf(),
        ensures
            final(self).wf(),
            put_on_clipboard(*final(self), *old(self), ClipboardOp::Copy, r),
            old(self).synced() ==> final(self).synced(),
    {
        self.take_selection(ClipboardOp::Copy, "Copied ")
    }

    /// Puts the selection on the clipboard, to be moved.
    pub fn cut_selection(&mut self) -> (r: Effect)
        requires
            old(self).wf(),
        ensures
            final(self).wf(),
            put_on_clipboard(*final(self), *old(self), ClipboardOp::Cut, r),
            old(self).synced() ==> final(self).synced(),
    {
        self.take_selection(ClipboardOp::Cut, "Cut ")
    }

    /// Copies the full path of the selected file/folder to the system
    /// clipboard.
    pub fn copy_filename(&mut self) -> (r: Effect)
        requires
            old(self).wf(),
        ensures
            final(self).wf(),
            copied_names(*final(self), *old(self), r),
            old(self).synced() ==> final(self).synced(),
    {
        let paths = self.selected_paths();
        assert(text::texts(paths@).len() == paths@.len());
        if paths.len() == 0 {
            self.status = "Nothing selected".to_owned();
            return Effect::Nothing;
        }
        self.status = "File path copied".to_owned();
        Effect::CopyText(clipboard_text(&paths))
    }

    /// Copies the current folder path to the system clipboard.
    pub fn copy_folder_path(&mut self) -> (r: Effect)
        requires
            old(self).wf(),
        ensures
            final(self).wf(),
            said(*final(self), *old(self), "Folder path copied"@),
            copies_text(r, old(self).active().path@),
            old(self).synced() ==> final(self).synced(),
    {
        let dir = self.active_tab_dir();
        self.status = "Folder path copied".to_owned();
        Effect::CopyText(dir)
    }

    /// Runs a fully-resolved transfer batch as one background operation.
    pub fn start_transfer(
        &mut self,
        items: Vec<TransferItem>,
        dest: String,
        op: Option<ClipboardOp>,
    ) -> (r: Effect)
        requires
            old(self).wf(),
        ensures
            final(self).wf(),
            transfer_started(*final(self), *old(self), items@, dest@, op, r),
            old(self).synced() ==> final(self).synced(),
    {
        self.background_op_dirs = transfer_dirs(&items, dest.as_str(), op);
        self.background_op = Some(BackgroundOp::counting());
        self.status = transfer_status(dest.as_str(), op);
        let moving: bool = match op {
            Some(ClipboardOp::Cut) => true,
            _ => false,
        };
        if moving {
            self.clipboard = Vec::new();
        }
        let ap: usize = self.active_pane;
        let t = self.panes[ap].active_tab_mut();
        t.clear_selection();
        let copy: bool = match op {
            Some(ClipboardOp::Copy) => true,
            _ => false,
        };
        Effect::Transfer { items, dest, copy }
    }

    /// Shared tail of clipboard-paste and drag & drop: checks name collisions
    /// up front. A clean batch runs immediately; any colliding item opens the
    /// conflict dialog so the user can choose overwrite or save-as-copy.
    /// Either way the whole batch then runs as a single background operation.
    pub fn transfer_items<F: Fn(&String) -> bool>(
        &mut self,
        items: Vec<String>,
        dest: String,
        op: Option<ClipboardOp>,
        on_disk: &F,
    ) -> (r: Effect)
        requires
            old(self).wf(),
            forall|s: &String| call_requires(*on_disk, (s,)),
        ensures
            final(self).wf(),
            transferring(
                *final(self),
                *old(self),
                text::texts(items@),
                dest@,
                op,
                *on_disk,
                r,
            ),
            old(self).synced() ==> final(self).synced(),
    {
        let ghost all = text::texts(items@);
        let sorted = sort_out(items, dest.as_str(), on_disk);
        let ghost answers = choose|answers: Seq<bool>|
            {
                &&& #[trigger] transfer::collisions_answered(all, dest@, *on_disk, answers)
                &&& text::texts(sorted.conflicts@) == transfer::picked(all, answers, true)
                &&& transfer::sources(sorted.resolved@) == transfer::picked(all, answers, false)
            };
        let ghost clear = transfer::picked(all, answers, false);
        let ghost taken = transfer::picked(all, answers, true);
        assert(text::texts(sorted.conflicts@).len() == sorted.conflicts@.len());
        if sorted.conflicts.len() == 0 {
            let ghost sent = sorted.resolved@;
            let r = self.start_transfer(sorted.resolved, dest, op);
            assert(transfer_started(*self, *old(self), sent, dest@, op, r));
            assert(sorted_out(*self, *old(self), taken, clear, dest@, op, r));
            r
        } else {
            let ghost to = dest@;
            self.dialog_just_opened = true;
            self.dialog = Some(
                Dialog::PasteConflict(
                    PasteConflict {
                        dest_dir: dest,
                        op,
                        conflicts: sorted.conflicts,
                        resolved: sorted.resolved,
                    },
                ),
            );
            assert(sorted_out(*self, *old(self), taken, clear, to, op, Effect::Nothing));
            Effect::Nothing
        }
    }

    /// Pastes the clipboard into the active folder. Where it is empty (files
    /// were copied in Explorer or another app), the system's clipboard is taken
    /// over: `os` are the files on it.
    pub fn paste_clipboard<F: Fn(&String) -> bool>(
        &mut self,
        os: Option<Vec<String>>,
        on_disk: &F,
    ) -> (r: Effect)
        requires
            old(self).wf(),
            forall|s: &String| call_requires(*on_disk, (s,)),
        ensures
            final(self).wf(),
            pasted_clipboard(*final(self), *old(self), os, *on_disk, r),
            old(self).synced() ==> final(self).synced(),
    {
        if self.clipboard.len() == 0 {
            match os {
                Some(paths) => {
                    if paths.len() == 0 {
                        self.status = "Clipboard is empty".to_owned();
                        return Effect::Nothing;
                    }
                    self.status = count_text(
                        "Imported ",
                        paths.len(),
                        " item(s) from clipboard",
                    );
                    self.clipboard = paths;
                    self.clipboard_op = Some(ClipboardOp::Copy);
                    assert(imported(*self, *old(self), paths));
                },
                None => {
                    self.status = "Clipboard is empty".to_owned();
                    return Effect::Nothing;
                },
            }
        }
        let ghost mid = *self;
        let dest = self.active_tab_dir();
        let op = self.clipboard_op;
        let items = paste_items(&self.clipboard, dest.as_str(), op);
        assert(text::texts(items@).len() == items@.len());
        let r = if items.len() == 0 {
            self.status = "Nothing to paste".to_owned();
            Effect::Nothing
        } else {
            self.transfer_items(items, dest, op, on_disk)
        };
        assert(pasted_from(*self, mid, *on_disk, r));
        r
    }
}

} // verus!
