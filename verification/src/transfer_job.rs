//! A copy or a move of several items, step by step: what has to be done next
//! on disk, and where its outcome leads.

use crate::copy_walk::{CopyItem, CopyWalk};
use crate::fs_ops::{copy_file, no_file_name};
use crate::progress::{
    copied_update, copy_item_transfer, count_files, count_item, move_item_transfer, moved_update,
    FileCount, OpStatus, ProgressUpdate, TransferBatch, TransferItem,
};
use crate::{copy_walk, fs_ops, progress, text};
use vstd::prelude::*;

verus! {

// ---------------------------------------------------------------------------
// Questions and answers
// ---------------------------------------------------------------------------

/// What a transfer needs next.
#[derive(Debug, PartialEq, Eq)]
pub enum TransferAsk {
    /// Count the files at this path.
    Count(String),
    /// Show this to the user.
    Report(ProgressUpdate),
    /// See whether something is at this path.
    Look(String),
    /// Delete what is at this path for good.
    Delete(String),
    Rename { from: String, to: String },
    /// See whether the source is a folder; where it is, create the destination
    /// and list the names in the source.
    Enter(CopyItem),
    /// Copy a file.
    Copy(CopyItem),
    /// Delete the source of a move that had to be copied.
    Remove(String),
    /// Nothing: the transfer has ended.
    End(OpStatus),
}

/// What came of it.
#[derive(Debug, PartialEq, Eq)]
pub enum TransferReply {
    Done,
    Failed(String),
    Counted(FileCount),
    Answer(bool),
    File,
    /// The names in a folder.
    Folder(Vec<String>),
}

/// What a transfer needs next, by its paths.
pub enum AskView {
    Count(Seq<char>),
    Report(int, int, Seq<char>),
    Look(Seq<char>),
    Delete(Seq<char>),
    Rename(Seq<char>, Seq<char>),
    Enter((Seq<char>, Seq<char>)),
    Copy((Seq<char>, Seq<char>)),
    Remove(Seq<char>),
    End,
}

/// What came of it, by its texts.
pub enum ReplyView {
    Done,
    Failed(Seq<char>),
    Counted(FileCount),
    Answer(bool),
    File,
    Folder(Seq<Seq<char>>),
}

impl View for TransferAsk {
    type V = AskView;

    open spec fn view(&self) -> AskView {
        match self {
            TransferAsk::Count(p) => AskView::Count(p@),
            TransferAsk::Report(u) => AskView::Report(
                u.files_done as int,
                u.files_total as int,
                u.current_file@,
            ),
            TransferAsk::Look(p) => AskView::Look(p@),
            TransferAsk::Delete(p) => AskView::Delete(p@),
            TransferAsk::Rename { from, to } => AskView::Rename(from@, to@),
            TransferAsk::Enter(item) => AskView::Enter(item@),
            TransferAsk::Copy(item) => AskView::Copy(item@),
            TransferAsk::Remove(p) => AskView::Remove(p@),
            TransferAsk::End(_) => AskView::End,
        }
    }
}

impl View for TransferReply {
    type V = ReplyView;

    open spec fn view(&self) -> ReplyView {
        match self {
            TransferReply::Done => ReplyView::Done,
            TransferReply::Failed(e) => ReplyView::Failed(e@),
            TransferReply::Counted(c) => ReplyView::Counted(*c),
            TransferReply::Answer(b) => ReplyView::Answer(*b),
            TransferReply::File => ReplyView::File,
            TransferReply::Folder(names) => ReplyView::Folder(text::texts(names@)),
        }
    }
}

// ---------------------------------------------------------------------------
// Where a transfer stands
// ---------------------------------------------------------------------------

/// How far the item at hand has come.
pub enum StageView {
    /// The files of all items are being counted.
    Counting,
    /// The copy to this place is about to begin.
    Announcing(Seq<char>),
    /// Something at this place may be replaced.
    Finding(Seq<char>),
    /// What is at this place is in the way, and is replaced.
    Clearing(Seq<char>),
    /// A move to this place must not write over anything.
    Checking(Seq<char>),
    /// The item is moved to this place by renaming it.
    Renaming(Seq<char>),
    /// It was renamed, and its files are counted.
    Recounting(Seq<char>),
    /// So many files are done with it.
    Moved(int),
    /// An item of the copy, what follows it, and the number of files that are
    /// done.
    Entering((Seq<char>, Seq<char>), Seq<(Seq<char>, Seq<char>)>, int),
    /// It is a file, which must not be written over another.
    Guarding((Seq<char>, Seq<char>), Seq<(Seq<char>, Seq<char>)>, int),
    /// It is being copied.
    Copying((Seq<char>, Seq<char>), Seq<(Seq<char>, Seq<char>)>, int),
    /// It has been copied.
    Copied((Seq<char>, Seq<char>), Seq<(Seq<char>, Seq<char>)>, int),
    /// Everything has been copied, and the source of a move is deleted.
    Removing(int),
    Over,
}

/// A transfer: its items and where it stands.
pub struct JobView {
    pub copy: bool,
    pub items: Seq<TransferItem>,
    pub dest_dir: Seq<char>,
    pub counts: Seq<FileCount>,
    /// The place of the item at hand.
    pub at: int,
    pub done: int,
    pub total: int,
    pub errors: Seq<Seq<char>>,
    pub stage: StageView,
}

impl JobView {
    /// The item at hand.
    pub open spec fn item(self) -> TransferItem {
        self.items[self.at]
    }

    /// An item is at hand unless the transfer is over, and none before it failed
    /// twice. The first one is at hand while the files are counted. An item goes
    /// to its own place, and only where it may replace something is that looked
    /// for.
    pub open spec fn ok(self) -> bool {
        &&& self.errors.len() <= self.at
        &&& match self.stage {
            StageView::Counting => self.at == 0 && self.counts.len() < self.items.len(),
            StageView::Over => self.at == self.items.len(),
            _ => self.at < self.items.len(),
        }
        &&& match self.stage {
            StageView::Announcing(dest) => self.goes_to(dest),
            StageView::Finding(dest) => self.goes_to(dest) && self.item().overwrite,
            StageView::Clearing(dest) => self.goes_to(dest) && self.item().overwrite,
            StageView::Checking(dest) => self.goes_to(dest),
            StageView::Renaming(dest) => self.goes_to(dest),
            StageView::Recounting(dest) => self.goes_to(dest),
            _ => true,
        }
    }

    /// The item at hand goes to `dest`.
    pub open spec fn goes_to(self, dest: Seq<char>) -> bool {
        self.item().dest_in(self.dest_dir) == Some(dest)
    }

    /// `later` is the same transfer, no less far on, and tells of every error
    /// that this one tells of.
    pub open spec fn leads_to(self, later: JobView) -> bool {
        &&& later.copy == self.copy
        &&& later.items == self.items
        &&& later.dest_dir == self.dest_dir
        &&& self.at <= later.at
        &&& self.errors.is_prefix_of(later.errors)
    }

    /// The transfer as it turns to the item at hand, or ends where none is
    /// left.
    pub open spec fn begun(self) -> JobView
        decreases self.items.len() - self.at,
    {
        if self.at >= self.items.len() {
            JobView { stage: StageView::Over, ..self }
        } else {
            match self.item().dest_in(self.dest_dir) {
                Some(dest) => JobView {
                    stage: if self.copy {
                        StageView::Announcing(dest)
                    } else {
                        self.placing(dest)
                    },
                    ..self
                },
                None => JobView {
                    at: self.at + 1,
                    errors: self.errors.push(
                        progress::item_error(self.item().src@, "source has no file name"@),
                    ),
                    ..self
                }.begun(),
            }
        }
    }

    /// What is at `dest` matters only where it may be replaced.
    pub open spec fn placing(self, dest: Seq<char>) -> StageView {
        if self.item().overwrite {
            StageView::Finding(dest)
        } else {
            self.placed(dest)
        }
    }

    /// What may be replaced at `dest` is gone.
    pub open spec fn placed(self, dest: Seq<char>) -> StageView {
        if self.copy {
            StageView::Entering((self.item().src@, dest), Seq::empty(), self.done)
        } else {
            StageView::Checking(dest)
        }
    }

    /// The item at hand failed, which leaves the number of files that are done.
    pub open spec fn failed(self, error: Seq<char>) -> JobView {
        JobView {
            at: self.at + 1,
            errors: self.errors.push(progress::item_error(self.item().src@, error)),
            ..self
        }.begun()
    }

    /// The item at hand is done, and with it `n` files.
    pub open spec fn succeeded(self, n: int) -> JobView {
        JobView { at: self.at + 1, done: n, ..self }.begun()
    }

    /// The copy of the item at hand goes on with `todo`. A move deletes its
    /// source in the end.
    pub open spec fn walking(self, todo: Seq<(Seq<char>, Seq<char>)>, n: int) -> JobView {
        if todo.len() > 0 {
            JobView {
                stage: StageView::Entering(todo[0], todo.subrange(1, todo.len() as int), n),
                ..self
            }
        } else if self.copy {
            self.succeeded(n)
        } else {
            JobView { stage: StageView::Removing(n), ..self }
        }
    }

    /// What the transfer needs next.
    pub open spec fn ask(self) -> AskView {
        match self.stage {
            StageView::Counting => AskView::Count(self.items[self.counts.len() as int].src@),
            StageView::Announcing(dest) => AskView::Report(
                self.done,
                self.total,
                progress::name_at(dest),
            ),
            StageView::Finding(dest) => AskView::Look(dest),
            StageView::Clearing(dest) => AskView::Delete(dest),
            StageView::Checking(dest) => AskView::Look(dest),
            StageView::Renaming(dest) => AskView::Rename(self.item().src@, dest),
            StageView::Recounting(dest) => AskView::Count(dest),
            StageView::Moved(n) => AskView::Report(n, self.total, ""@),
            StageView::Entering(item, _, _) => AskView::Enter(item),
            StageView::Guarding(item, _, _) => AskView::Look(item.1),
            StageView::Copying(item, _, _) => AskView::Copy(item),
            StageView::Copied(item, _, n) => AskView::Report(
                n,
                self.total,
                progress::name_at(item.1),
            ),
            StageView::Removing(_) => AskView::Remove(self.item().src@),
            StageView::Over => AskView::End,
        }
    }

    /// `r` can come of what the transfer needs, and the numbers stay within
    /// what can be counted.
    pub open spec fn takes(self, r: ReplyView) -> bool {
        match self.stage {
            StageView::Counting => r matches ReplyView::Counted(c) && progress::files_in(
                self.counts.push(c),
            ) <= u64::MAX,
            StageView::Announcing(_) => r is Done,
            StageView::Finding(_) => r is Answer,
            StageView::Clearing(_) => r is Done || r is Failed,
            StageView::Checking(_) => r is Answer,
            StageView::Renaming(_) => r is Done || r is Failed,
            StageView::Recounting(_) => r matches ReplyView::Counted(c) && self.done + c.files()
                <= u64::MAX,
            StageView::Moved(_) => r is Done,
            StageView::Entering(_, _, _) => r is File || r is Folder || r is Failed,
            StageView::Guarding(_, _, _) => r is Answer,
            StageView::Copying(_, _, n) => (r is Done && n < u64::MAX) || r is Failed,
            StageView::Copied(_, _, _) => r is Done,
            StageView::Removing(_) => r is Done || r is Failed,
            StageView::Over => false,
        }
    }

    /// The transfer after `r` came of what it needed.
    pub open spec fn after(self, r: ReplyView) -> JobView {
        match (self.stage, r) {
            (StageView::Counting, ReplyView::Counted(c)) => {
                let counts = self.counts.push(c);
                let now = JobView { counts, ..self };
                if counts.len() < self.items.len() {
                    now
                } else {
                    JobView { total: progress::files_in(counts) as int, ..now }.begun()
                }
            },
            (StageView::Announcing(dest), _) => JobView { stage: self.placing(dest), ..self },
            (StageView::Finding(dest), ReplyView::Answer(there)) => JobView {
                stage: if there {
                    StageView::Clearing(dest)
                } else {
                    self.placed(dest)
                },
                ..self
            },
            (StageView::Clearing(dest), ReplyView::Done) => JobView {
                stage: self.placed(dest),
                ..self
            },
            (StageView::Checking(dest), ReplyView::Answer(there)) => if there {
                self.failed(fs_ops::exists_message(dest))
            } else {
                JobView { stage: StageView::Renaming(dest), ..self }
            },
            (StageView::Renaming(dest), ReplyView::Done) => JobView {
                stage: StageView::Recounting(dest),
                ..self
            },
            // Another volume: the item has to be copied.
            (StageView::Renaming(dest), ReplyView::Failed(_)) => JobView {
                stage: StageView::Entering((self.item().src@, dest), Seq::empty(), self.done),
                ..self
            },
            (StageView::Recounting(_), ReplyView::Counted(c)) => JobView {
                stage: StageView::Moved(self.done + c.files()),
                ..self
            },
            (StageView::Moved(n), _) => self.succeeded(n),
            (StageView::Entering(item, rest, n), ReplyView::File) => JobView {
                stage: StageView::Guarding(item, rest, n),
                ..self
            },
            (StageView::Entering(item, rest, n), ReplyView::Folder(names)) => self.walking(
                copy_walk::children(item, names) + rest,
                n,
            ),
            (StageView::Guarding(item, rest, n), ReplyView::Answer(there)) => if there {
                self.failed(fs_ops::exists_message(item.1))
            } else {
                JobView { stage: StageView::Copying(item, rest, n), ..self }
            },
            (StageView::Copying(item, rest, n), ReplyView::Done) => JobView {
                stage: StageView::Copied(item, rest, n + 1),
                ..self
            },
            (StageView::Copied(_, rest, n), _) => self.walking(rest, n),
            (StageView::Removing(n), ReplyView::Done) => self.succeeded(n),
            (_, ReplyView::Failed(e)) => self.failed(e),
            _ => self,
        }
    }
}

// ---------------------------------------------------------------------------
// The transfer
// ---------------------------------------------------------------------------

/// How far the item at hand has come.
#[derive(Debug, PartialEq, Eq)]
enum Stage {
    Counting,
    Announcing(String),
    Finding(String),
    Clearing(String),
    Checking(String),
    Renaming(String),
    Recounting(String),
    Moved(u64),
    Entering(CopyItem, CopyWalk),
    Guarding(CopyItem, CopyWalk),
    Copying(CopyItem, CopyWalk),
    Copied(CopyItem, CopyWalk),
    Removing(u64),
    Over,
}

impl Stage {
    spec fn model(self) -> StageView {
        match self {
            Stage::Counting => StageView::Counting,
            Stage::Announcing(d) => StageView::Announcing(d@),
            Stage::Finding(d) => StageView::Finding(d@),
            Stage::Clearing(d) => StageView::Clearing(d@),
            Stage::Checking(d) => StageView::Checking(d@),
            Stage::Renaming(d) => StageView::Renaming(d@),
            Stage::Recounting(d) => StageView::Recounting(d@),
            Stage::Moved(n) => StageView::Moved(n as int),
            Stage::Entering(i, w) => StageView::Entering(i@, w.todo(), w.done() as int),
            Stage::Guarding(i, w) => StageView::Guarding(i@, w.todo(), w.done() as int),
            Stage::Copying(i, w) => StageView::Copying(i@, w.todo(), w.done() as int),
            Stage::Copied(i, w) => StageView::Copied(i@, w.todo(), w.done() as int),
            Stage::Removing(n) => StageView::Removing(n as int),
            Stage::Over => StageView::Over,
        }
    }
}

/// A copy or a move of several items.
#[derive(Debug, PartialEq, Eq)]
pub struct TransferJob {
    copy: bool,
    items: Vec<TransferItem>,
    dest_dir: String,
    counts: Vec<FileCount>,
    at: usize,
    batch: TransferBatch,
    stage: Stage,
}

impl View for TransferJob {
    type V = JobView;

    closed spec fn view(&self) -> JobView {
        JobView {
            copy: self.copy,
            items: self.items@,
            dest_dir: self.dest_dir@,
            counts: self.counts@,
            at: self.at as int,
            done: self.batch.done as int,
            total: self.batch.total as int,
            errors: text::texts(self.batch.errors@),
            stage: self.stage.model(),
        }
    }
}

/// A transfer of `items` that has not begun.
pub open spec fn fresh_job(copy: bool, items: Seq<TransferItem>, dest_dir: Seq<char>) -> JobView {
    let v = JobView {
        copy,
        items,
        dest_dir,
        counts: Seq::empty(),
        at: 0,
        done: 0,
        total: 0,
        errors: Seq::empty(),
        stage: StageView::Counting,
    };
    if items.len() > 0 {
        v
    } else {
        JobView { stage: StageView::Over, ..v }
    }
}

fn new_job(copy: bool, items: Vec<TransferItem>, dest_dir: String) -> (r: TransferJob)
    ensures
        r@ == fresh_job(copy, items@, dest_dir@),
        r@.ok(),
{
    let stage = if items.len() > 0 {
        Stage::Counting
    } else {
        Stage::Over
    };
    let r = TransferJob {
        copy,
        items,
        dest_dir,
        counts: Vec::new(),
        at: 0,
        batch: TransferBatch::new(0),
        stage,
    };
    assert(text::texts(r.batch.errors@) =~= Seq::<Seq<char>>::empty());
    r
}

/// Copies `items` into `dest_dir`.
pub fn copy_items_bg(items: Vec<TransferItem>, dest_dir: String) -> (r: TransferJob)
    ensures
        r@ == fresh_job(true, items@, dest_dir@),
        r@.ok(),
{
    new_job(true, items, dest_dir)
}

/// Moves `items` into `dest_dir`.
pub fn move_items_bg(items: Vec<TransferItem>, dest_dir: String) -> (r: TransferJob)
    ensures
        r@ == fresh_job(false, items@, dest_dir@),
        r@.ok(),
{
    new_job(false, items, dest_dir)
}

impl TransferJob {
    /// What the transfer needs next.
    pub fn ask(&self) -> (r: TransferAsk)
        requires
            self@.ok(),
        ensures
            r@ == self@.ask(),
            r matches TransferAsk::End(status) ==> progress::ends_as(
                self@.errors,
                (if self@.copy {
                    "Copied into "@
                } else {
                    "Moved into "@
                }) + self@.dest_dir,
                status,
            ),
    {
        match &self.stage {
            Stage::Counting => TransferAsk::Count(self.items[self.counts.len()].src.clone()),
            Stage::Announcing(dest) => TransferAsk::Report(
                copy_item_transfer(dest.as_str(), self.batch.done, self.batch.total),
            ),
            Stage::Finding(dest) => TransferAsk::Look(dest.clone()),
            Stage::Clearing(dest) => TransferAsk::Delete(dest.clone()),
            Stage::Checking(dest) => TransferAsk::Look(dest.clone()),
            Stage::Renaming(dest) => TransferAsk::Rename {
                from: self.items[self.at].src.clone(),
                to: dest.clone(),
            },
            Stage::Recounting(dest) => TransferAsk::Count(dest.clone()),
            Stage::Moved(n) => TransferAsk::Report(moved_update(*n, 0, self.batch.total)),
            Stage::Entering(item, _) => TransferAsk::Enter(item.clone()),
            Stage::Guarding(item, _) => TransferAsk::Look(item.dest.clone()),
            Stage::Copying(item, _) => TransferAsk::Copy(item.clone()),
            Stage::Copied(item, walk) => TransferAsk::Report(
                copied_update(item, walk.files_done(), self.batch.total),
            ),
            Stage::Removing(_) => TransferAsk::Remove(self.items[self.at].src.clone()),
            Stage::Over => TransferAsk::End(
                if self.copy {
                    self.batch.finish_copy(self.dest_dir.as_str())
                } else {
                    self.batch.finish_move(self.dest_dir.as_str())
                },
            ),
        }
    }

    /// Whether `reply` can come of what the transfer needs.
    pub fn takes(&self, reply: &TransferReply) -> (r: bool)
        requires
            self@.ok(),
        ensures
            r == self@.takes(reply@),
    {
        match (&self.stage, reply) {
            (Stage::Counting, TransferReply::Counted(c)) => {
                let mut sum: u64 = 0;
                let mut i: usize = 0;
                let n: u64 = count_item(*c);
                let ghost all = self.counts@.push(*c);
                proof {
                    assert(all.drop_last() =~= self.counts@);
                    assert(self.counts@.subrange(0, 0) =~= Seq::<FileCount>::empty());
                }
                while i < self.counts.len()
                    invariant
                        i <= self.counts.len(),
                        sum == progress::files_in(self.counts@.subrange(0, i as int)),
                        self.stage is Counting,
                        reply@ == ReplyView::Counted(*c),
                        all == self.counts@.push(*c),
                        all.drop_last() == self.counts@,
                    decreases self.counts.len() - i,
                {
                    proof {
                        let upto = self.counts@.subrange(0, i + 1);
                        assert(upto.drop_last() =~= self.counts@.subrange(0, i as int));
                        assert(upto.last() == self.counts@[i as int]);
                        progress::lemma_files_in_grows(self.counts@, i + 1);
                    }
                    match sum.checked_add(count_item(self.counts[i])) {
                        Some(s) => {
                            sum = s;
                        },
                        None => {
                            return false;
                        },
                    }
                    i = i + 1;
                }
                assert(self.counts@.subrange(0, self.counts@.len() as int) =~= self.counts@);
                sum.checked_add(n).is_some()
            },
            (Stage::Announcing(_), TransferReply::Done) => true,
            (Stage::Finding(_), TransferReply::Answer(_)) => true,
            (Stage::Clearing(_), TransferReply::Done) => true,
            (Stage::Clearing(_), TransferReply::Failed(_)) => true,
            (Stage::Checking(_), TransferReply::Answer(_)) => true,
            (Stage::Renaming(_), TransferReply::Done) => true,
            (Stage::Renaming(_), TransferReply::Failed(_)) => true,
            (Stage::Recounting(_), TransferReply::Counted(c)) => self.batch.done.checked_add(
                count_item(*c),
            ).is_some(),
            (Stage::Moved(_), TransferReply::Done) => true,
            (Stage::Entering(_, _), TransferReply::File) => true,
            (Stage::Entering(_, _), TransferReply::Folder(_)) => true,
            (Stage::Entering(_, _), TransferReply::Failed(_)) => true,
            (Stage::Guarding(_, _), TransferReply::Answer(_)) => true,
            (Stage::Copying(_, walk), TransferReply::Done) => walk.files_done() < u64::MAX,
            (Stage::Copying(_, _), TransferReply::Failed(_)) => true,
            (Stage::Copied(_, _), TransferReply::Done) => true,
            (Stage::Removing(_), TransferReply::Done) => true,
            (Stage::Removing(_), TransferReply::Failed(_)) => true,
            _ => false,
        }
    }

    /// Turns to the item at hand, and past those that have no place to go.
    fn begin(&mut self)
        requires
            old(self)@.errors.len() <= old(self)@.at <= old(self)@.items.len(),
        ensures
            final(self)@ == old(self)@.begun(),
            final(self)@.ok(),
    {
        while self.at < self.items.len()
            invariant
                self@.begun() == old(self)@.begun(),
                self@.errors.len() <= self@.at <= self@.items.len(),
            decreases self.items.len() - self.at,
        {
            let dest = self.items[self.at].dest_path(self.dest_dir.as_str());
            match dest {
                Some(dest) => {
                    self.stage = if self.copy {
                        Stage::Announcing(dest)
                    } else {
                        self.placing(dest)
                    };
                    return ;
                },
                None => {
                    let error = no_file_name();
                    self.batch.record(self.items[self.at].src.as_str(), Err(error.message));
                    self.at = self.at + 1;
                },
            }
        }
        self.stage = Stage::Over;
    }

    fn placing(&self, dest: String) -> (r: Stage)
        requires
            self.at < self.items.len(),
        ensures
            r.model() == self@.placing(dest@),
    {
        if self.items[self.at].overwrite {
            Stage::Finding(dest)
        } else {
            self.placed(dest)
        }
    }

    fn placed(&self, dest: String) -> (r: Stage)
        requires
            self.at < self.items.len(),
        ensures
            r.model() == self@.placed(dest@),
    {
        if self.copy {
            self.first_step(dest)
        } else {
            Stage::Checking(dest)
        }
    }

    /// The copy of the item at hand to `dest` begins.
    fn first_step(&self, dest: String) -> (r: Stage)
        requires
            self.at < self.items.len(),
        ensures
            r.model() == StageView::Entering(
                (self@.item().src@, dest@),
                Seq::empty(),
                self@.done,
            ),
    {
        let src = self.items[self.at].src.clone();
        let mut walk = CopyWalk::start(src, dest, self.batch.done);
        let first = walk.next();
        assert(walk.todo() =~= Seq::empty());
        match first {
            Some(item) => Stage::Entering(item, walk),
            None => Stage::Over,
        }
    }

    fn fail(&mut self, error: String)
        requires
            old(self)@.errors.len() <= old(self)@.at,
            old(self).at < old(self).items.len(),
        ensures
            final(self)@ == old(self)@.failed(error@),
            final(self)@.ok(),
    {
        self.batch.record(self.items[self.at].src.as_str(), Err(error));
        self.at = self.at + 1;
        self.begin();
    }

    fn succeed(&mut self, n: u64)
        requires
            old(self)@.errors.len() <= old(self)@.at,
            old(self).at < old(self).items.len(),
        ensures
            final(self)@ == old(self)@.succeeded(n as int),
            final(self)@.ok(),
    {
        self.batch.record("", Ok(n));
        self.at = self.at + 1;
        self.begin();
    }

    fn walk_on(&mut self, walk: CopyWalk)
        requires
            old(self)@.errors.len() <= old(self)@.at,
            old(self).at < old(self).items.len(),
        ensures
            final(self)@ == old(self)@.walking(walk.todo(), walk.done() as int),
            final(self)@.ok(),
    {
        let mut walk = walk;
        match walk.next() {
            Some(item) => {
                self.stage = Stage::Entering(item, walk);
            },
            None => {
                let n: u64 = walk.files_done();
                if self.copy {
                    self.succeed(n);
                } else {
                    self.stage = Stage::Removing(n);
                }
            },
        }
    }

    /// Takes in what came of what the transfer needed.
    pub fn take(&mut self, reply: TransferReply)
        requires
            old(self)@.ok(),
            old(self)@.takes(reply@),
        ensures
            final(self)@ == old(self)@.after(reply@),
            final(self)@.ok(),
    {
        let ghost was = self@;
        let mut stage = Stage::Over;
        core::mem::swap(&mut stage, &mut self.stage);
        proof {
            if was.at < was.items.len() {
                lemma_stage_does_not_matter(was);
            }
        }
        match (stage, reply) {
            (Stage::Counting, TransferReply::Counted(c)) => {
                self.counts.push(c);
                if self.counts.len() < self.items.len() {
                    self.stage = Stage::Counting;
                } else {
                    self.batch.total = count_files(&self.counts);
                    proof {
                        lemma_begun_without_stage(
                            JobView { counts: self@.counts, total: self@.total, ..was },
                            StageView::Over,
                        );
                    }
                    self.begin();
                }
            },
            (Stage::Announcing(dest), TransferReply::Done) => {
                self.stage = self.placing(dest);
            },
            (Stage::Finding(dest), TransferReply::Answer(there)) => {
                self.stage = if there {
                    Stage::Clearing(dest)
                } else {
                    self.placed(dest)
                };
            },
            (Stage::Clearing(dest), TransferReply::Done) => {
                self.stage = self.placed(dest);
            },
            (Stage::Checking(dest), TransferReply::Answer(there)) => {
                match move_item_transfer(dest.as_str(), there) {
                    Ok(_) => {
                        self.stage = Stage::Renaming(dest);
                    },
                    Err(e) => {
                        self.fail(e.message);
                    },
                }
            },
            (Stage::Renaming(dest), TransferReply::Done) => {
                self.stage = Stage::Recounting(dest);
            },
            (Stage::Renaming(dest), TransferReply::Failed(_)) => {
                self.stage = self.first_step(dest);
            },
            (Stage::Recounting(_), TransferReply::Counted(c)) => {
                self.stage = Stage::Moved(self.batch.done + count_item(c));
            },
            (Stage::Moved(n), TransferReply::Done) => {
                self.succeed(n);
            },
            (Stage::Entering(item, walk), TransferReply::File) => {
                self.stage = Stage::Guarding(item, walk);
            },
            (Stage::Entering(item, walk), TransferReply::Folder(names)) => {
                let mut walk = walk;
                walk.enter(&item, &names);
                self.walk_on(walk);
            },
            (Stage::Guarding(item, walk), TransferReply::Answer(there)) => {
                match copy_file(item.dest.as_str(), there) {
                    Ok(_) => {
                        self.stage = Stage::Copying(item, walk);
                    },
                    Err(e) => {
                        self.fail(e.message);
                    },
                }
            },
            (Stage::Copying(item, walk), TransferReply::Done) => {
                let mut walk = walk;
                let _ = walk.copied();
                self.stage = Stage::Copied(item, walk);
            },
            (Stage::Copied(_, walk), TransferReply::Done) => {
                self.walk_on(walk);
            },
            (Stage::Removing(n), TransferReply::Done) => {
                self.succeed(n);
            },
            (_, TransferReply::Failed(e)) => {
                self.fail(e);
            },
            _ => {},
        }
    }
}

pub(crate) proof fn lemma_begun_without_stage(v: JobView, s: StageView)
    requires
        v.errors.len() <= v.at <= v.items.len(),
    ensures
        v.begun() == (JobView { stage: s, ..v }).begun(),
        v.begun().ok(),
    decreases v.items.len() - v.at,
{
    if v.at < v.items.len() && v.item().dest_in(v.dest_dir) is None {
        let next = JobView {
            at: v.at + 1,
            errors: v.errors.push(
                progress::item_error(v.item().src@, "source has no file name"@),
            ),
            ..v
        };
        lemma_begun_without_stage(next, s);
    }
}

/// Where the item at hand leads to does not depend on how far it has come.
proof fn lemma_stage_does_not_matter(v: JobView)
    requires
        v.errors.len() <= v.at < v.items.len(),
    ensures
        forall|e: Seq<char>| #[trigger]
            v.failed(e) == (JobView { stage: StageView::Over, ..v }).failed(e) && v.failed(e).ok(),
        forall|n: int| #[trigger]
            v.succeeded(n) == (JobView { stage: StageView::Over, ..v }).succeeded(n)
                && v.succeeded(n).ok(),
{
    assert forall|e: Seq<char>| #[trigger]
        v.failed(e) == (JobView { stage: StageView::Over, ..v }).failed(e)
            && v.failed(e).ok() by {
        lemma_begun_without_stage(
            JobView {
                at: v.at + 1,
                errors: v.errors.push(progress::item_error(v.item().src@, e)),
                ..v
            },
            StageView::Over,
        );
    }
    assert forall|n: int| #[trigger]
        v.succeeded(n) == (JobView { stage: StageView::Over, ..v }).succeeded(n)
            && v.succeeded(n).ok() by {
        lemma_begun_without_stage(JobView { at: v.at + 1, done: n, ..v }, StageView::Over);
    }
}

// ---------------------------------------------------------------------------
// Laws
// ---------------------------------------------------------------------------

/// What turning to the next item keeps and where it can lead.
pub(crate) proof fn lemma_begun(v: JobView)
    requires
        v.errors.len() <= v.at <= v.items.len(),
    ensures
        v.begun().ok(),
        v.begun() == (JobView {
            at: v.begun().at,
            errors: v.begun().errors,
            stage: v.begun().stage,
            ..v
        }),
        v.at <= v.begun().at,
        v.errors.is_prefix_of(v.begun().errors),
        v.begun().errors.len() - v.errors.len() == v.begun().at - v.at,
        match v.begun().stage {
            StageView::Announcing(_) => v.copy,
            StageView::Finding(_) => !v.copy,
            StageView::Checking(_) => !v.copy,
            StageView::Over => true,
            _ => false,
        },
    decreases v.items.len() - v.at,
{
    if v.at < v.items.len() && v.item().dest_in(v.dest_dir) is None {
        let next = JobView {
            at: v.at + 1,
            errors: v.errors.push(
                progress::item_error(v.item().src@, "source has no file name"@),
            ),
            ..v
        };
        lemma_begun(next);
    }
}

proof fn lemma_item_ends(v: JobView)
    requires
        v.errors.len() <= v.at < v.items.len(),
    ensures
        forall|e: Seq<char>| #[trigger]
            v.failed(e).stage is Announcing || v.failed(e).stage is Finding
                || v.failed(e).stage is Checking || v.failed(e).stage is Over,
        forall|n: int| #[trigger]
            v.succeeded(n).stage is Announcing || v.succeeded(n).stage is Finding
                || v.succeeded(n).stage is Checking || v.succeeded(n).stage is Over,
{
    assert forall|e: Seq<char>| #[trigger]
        v.failed(e).stage is Announcing || v.failed(e).stage is Finding
            || v.failed(e).stage is Checking || v.failed(e).stage is Over by {
        lemma_begun(
            JobView {
                at: v.at + 1,
                errors: v.errors.push(progress::item_error(v.item().src@, e)),
                ..v
            },
        );
    }
    assert forall|n: int| #[trigger]
        v.succeeded(n).stage is Announcing || v.succeeded(n).stage is Finding
            || v.succeeded(n).stage is Checking || v.succeeded(n).stage is Over by {
        lemma_begun(JobView { at: v.at + 1, done: n, ..v });
    }
}

proof fn lemma_next_stage(v: JobView, r: ReplyView)
    requires
        v.ok(),
        v.takes(r),
    ensures
        v.after(r).ok(),
        match v.after(r).stage {
            StageView::Clearing(p) => v.stage == StageView::Finding(p) && r == ReplyView::Answer(
                true,
            ),
            StageView::Renaming(p) => v.stage == StageView::Checking(p) && r == ReplyView::Answer(
                false,
            ),
            StageView::Copying(i, rest, n) => v.stage == StageView::Guarding(i, rest, n) && r
                == ReplyView::Answer(false),
            StageView::Removing(n) => !v.copy && match v.stage {
                StageView::Copied(_, rest, m) => rest.len() == 0 && m == n,
                StageView::Entering(_, rest, m) => {
                    &&& rest.len() == 0
                    &&& m == n
                    &&& r matches ReplyView::Folder(names)
                    &&& names.len() == 0
                },
                _ => false,
            },
            _ => true,
        },
        v.after(r).stage is Clearing || v.after(r).stage is Renaming || v.after(r).stage is Copying
            || v.after(r).stage is Removing ==> v.after(r) == (JobView {
            stage: v.after(r).stage,
            ..v
        }),
{
    if v.at < v.items.len() {
        lemma_item_ends(v);
        lemma_stage_does_not_matter(v);
    }
    if v.stage is Counting {
        let c = r->Counted_0;
        lemma_begun(
            JobView {
                counts: v.counts.push(c),
                total: progress::files_in(v.counts.push(c)) as int,
                ..v
            },
        );
    }
}

/// A file is copied only right after it was seen that nothing is at the place
/// where it goes.
pub proof fn law_copy_writes_over_nothing(v: JobView, r: ReplyView, item: (Seq<char>, Seq<char>))
    requires
        v.ok(),
        v.takes(r),
        v.after(r).ask() == AskView::Copy(item),
    ensures
        v.ask() == AskView::Look(item.1),
        r == ReplyView::Answer(false),
{
    lemma_next_stage(v, r);
}

/// A move renames an item only right after it was seen that nothing is at the
/// place where it goes.
pub proof fn law_move_writes_over_nothing(
    v: JobView,
    r: ReplyView,
    from: Seq<char>,
    to: Seq<char>,
)
    requires
        v.ok(),
        v.takes(r),
        v.after(r).ask() == AskView::Rename(from, to),
    ensures
        v.ask() == AskView::Look(to),
        r == ReplyView::Answer(false),
        from == v.item().src@,
{
    lemma_next_stage(v, r);
}

/// Something at a destination is deleted only where it was just seen, and the
/// item that goes there may replace it.
pub proof fn law_only_what_may_be_replaced_is_deleted(v: JobView, r: ReplyView, p: Seq<char>)
    requires
        v.ok(),
        v.takes(r),
        v.after(r).ask() == AskView::Delete(p),
    ensures
        v.ask() == AskView::Look(p),
        r == ReplyView::Answer(true),
        v.item().overwrite,
        v.goes_to(p),
{
    lemma_next_stage(v, r);
}

/// The source of a move is deleted only once nothing of it is left to copy.
pub proof fn law_source_is_removed_last(v: JobView, r: ReplyView, p: Seq<char>)
    requires
        v.ok(),
        v.takes(r),
        v.after(r).ask() == AskView::Remove(p),
    ensures
        !v.copy,
        p == v.item().src@,
        match v.stage {
            StageView::Copied(_, rest, _) => rest.len() == 0,
            StageView::Entering(_, rest, _) => rest.len() == 0 && r == ReplyView::Folder(
                Seq::empty(),
            ),
            _ => false,
        },
{
    lemma_next_stage(v, r);
    if v.stage is Entering {
        assert(r->Folder_0 =~= Seq::empty());
    }
}

/// A step that fails is told of the item at hand, and the transfer goes on with
/// a later one. Only a rename may fail: the item is then copied.
pub proof fn law_a_failed_item_is_told_and_left(v: JobView, e: Seq<char>)
    requires
        v.ok(),
        v.takes(ReplyView::Failed(e)),
    ensures
        v.stage is Renaming ==> v.after(ReplyView::Failed(e)).item() == v.item() && v.after(
            ReplyView::Failed(e),
        ).errors == v.errors,
        v.stage !is Renaming ==> {
            let after = v.after(ReplyView::Failed(e));
            &&& v.at < after.at
            &&& after.done == v.done
            &&& v.errors.push(progress::item_error(v.item().src@, e)).is_prefix_of(after.errors)
        },
{
    lemma_begun(
        JobView {
            at: v.at + 1,
            errors: v.errors.push(progress::item_error(v.item().src@, e)),
            ..v
        },
    );
}

/// No step changes what is transferred or where to, goes back to an earlier item
/// or forgets an error.
pub proof fn law_a_transfer_keeps_its_items(v: JobView, r: ReplyView)
    requires
        v.ok(),
        v.takes(r),
    ensures
        v.leads_to(v.after(r)),
{
    if v.stage is Counting {
        let c = r->Counted_0;
        lemma_begun(
            JobView {
                counts: v.counts.push(c),
                total: progress::files_in(v.counts.push(c)) as int,
                ..v
            },
        );
    } else {
        assert forall|e: Seq<char>| v.leads_to(#[trigger] v.failed(e)) by {
            lemma_begun(
                JobView {
                    at: v.at + 1,
                    errors: v.errors.push(progress::item_error(v.item().src@, e)),
                    ..v
                },
            );
        }
        assert forall|n: int| v.leads_to(#[trigger] v.succeeded(n)) by {
            lemma_begun(JobView { at: v.at + 1, done: n, ..v });
        }
    }
}

} // verus!
