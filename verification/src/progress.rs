//! Background copies, moves and deletions: what they report, where each item
//! goes, and how a batch ends.

use crate::copy_walk::CopyItem;
use crate::fs_ops::{already_exists, FsError, FsErrorKind};
use crate::path::{file_name, join};
use crate::text::{join as join_texts, u64_to_string};
use crate::{fs_ops, path, path_laws, text};
use vstd::prelude::*;

verus! {

// ---------------------------------------------------------------------------
// Reports
// ---------------------------------------------------------------------------

/// Progress update sent from a background file operation.
#[derive(Debug, PartialEq, Eq)]
pub struct ProgressUpdate {
    pub files_done: u64,
    pub files_total: u64,
    pub current_file: String,
}

impl Clone for ProgressUpdate {
    fn clone(&self) -> (r: Self)
        ensures
            r == *self,
    {
        ProgressUpdate {
            files_done: self.files_done,
            files_total: self.files_total,
            current_file: self.current_file.clone(),
        }
    }
}

impl ProgressUpdate {
    /// The update tells of `done` of `total` files, and names `file`.
    pub open spec fn tells(self, done: u64, total: u64, file: Seq<char>) -> bool {
        self.files_done == done && self.files_total == total && self.current_file@ == file
    }
}

/// Status of a background operation.
#[derive(Debug, PartialEq, Eq)]
pub enum OpStatus {
    Idle,
    Running,
    Completed(String),
    Failed(String),
}

impl Clone for OpStatus {
    fn clone(&self) -> (r: Self)
        ensures
            r == *self,
    {
        match self {
            OpStatus::Idle => OpStatus::Idle,
            OpStatus::Running => OpStatus::Running,
            OpStatus::Completed(m) => OpStatus::Completed(m.clone()),
            OpStatus::Failed(m) => OpStatus::Failed(m.clone()),
        }
    }
}

/// Tracks a background copy/move/delete operation.
#[derive(Debug, PartialEq, Eq)]
pub struct BackgroundOp {
    pub progress: ProgressUpdate,
    pub status: OpStatus,
}

impl BackgroundOp {
    /// A copy or move that is still counting its files.
    pub fn counting() -> (r: Self)
        ensures
            r.progress.tells(0, 0, "Counting…"@),
            r.status == OpStatus::Running,
    {
        BackgroundOp {
            progress: ProgressUpdate {
                files_done: 0,
                files_total: 0,
                current_file: "Counting…".to_owned(),
            },
            status: OpStatus::Running,
        }
    }

    /// A deletion of `total` items that has just begun.
    pub fn deleting(total: u64) -> (r: Self)
        ensures
            r.progress.tells(0, total, ""@),
            r.status == OpStatus::Running,
    {
        BackgroundOp {
            progress: ProgressUpdate {
                files_done: 0,
                files_total: total,
                current_file: "".to_owned(),
            },
            status: OpStatus::Running,
        }
    }

    /// Takes in the messages that have come since the last time: the last of
    /// them counts. Returns true if the operation is still running.
    pub fn poll(&mut self, updates: Vec<ProgressUpdate>, statuses: Vec<OpStatus>) -> (r: bool)
        ensures
            final(self).progress == (if updates@.len() > 0 {
                updates@.last()
            } else {
                old(self).progress
            }),
            final(self).status == (if statuses@.len() > 0 {
                statuses@.last()
            } else {
                old(self).status
            }),
            r == (final(self).status == OpStatus::Running),
    {
        let mut updates = updates;
        match updates.pop() {
            Some(u) => {
                self.progress = u;
            },
            None => {},
        }
        let mut statuses = statuses;
        match statuses.pop() {
            Some(s) => {
                self.status = s;
            },
            None => {},
        }
        match self.status {
            OpStatus::Running => true,
            _ => false,
        }
    }
}

// ---------------------------------------------------------------------------
// Counting
// ---------------------------------------------------------------------------

/// What an item adds to the number of files.
#[derive(Debug, Clone, Copy, PartialEq, Eq, Structural)]
pub enum FileCount {
    /// A file.
    File,
    /// A folder with so many files under it.
    Folder(u64),
}

impl FileCount {
    /// The number of files that the item stands for.
    pub open spec fn files(self) -> nat {
        match self {
            FileCount::File => 1,
            FileCount::Folder(n) => n as nat,
        }
    }
}

/// The number of files that `items` stand for.
pub open spec fn files_in(items: Seq<FileCount>) -> nat
    decreases items.len(),
{
    if items.len() == 0 {
        0
    } else {
        files_in(items.drop_last()) + items.last().files()
    }
}

/// Counts a single item: 1 for a file, everything under it for a folder.
pub fn count_item(item: FileCount) -> (r: u64)
    ensures
        r == item.files(),
{
    match item {
        FileCount::File => 1,
        FileCount::Folder(n) => n,
    }
}

pub proof fn lemma_files_in_grows(items: Seq<FileCount>, i: int)
    requires
        0 <= i <= items.len(),
    ensures
        files_in(items.subrange(0, i)) <= files_in(items),
    decreases items.len(),
{
    if i == items.len() {
        assert(items.subrange(0, i) =~= items);
    } else {
        lemma_files_in_grows(items.drop_last(), i);
        assert(items.drop_last().subrange(0, i) =~= items.subrange(0, i));
    }
}

/// Counts the files that the items of a folder, or of a batch, stand for.
pub fn count_files(items: &Vec<FileCount>) -> (r: u64)
    requires
        files_in(items@) <= u64::MAX,
    ensures
        r == files_in(items@),
{
    let mut count: u64 = 0;
    let mut i: usize = 0;
    while i < items.len()
        invariant
            i <= items.len(),
            files_in(items@) <= u64::MAX,
            count == files_in(items@.subrange(0, i as int)),
        decreases items.len() - i,
    {
        proof {
            let upto = items@.subrange(0, i + 1);
            assert(upto.drop_last() =~= items@.subrange(0, i as int));
            assert(upto.last() == items@[i as int]);
            lemma_files_in_grows(items@, i + 1);
        }
        count = count + count_item(items[i]);
        i = i + 1;
    }
    assert(items@.subrange(0, items@.len() as int) =~= items@);
    count
}

// ---------------------------------------------------------------------------
// One item
// ---------------------------------------------------------------------------

/// One unit of a background copy/move batch, carrying the per-item conflict
/// resolution the caller already got from the user (overwrite the existing
/// destination, or land under a fresh name instead).
#[derive(Debug, PartialEq, Eq)]
pub struct TransferItem {
    pub src: String,
    /// Name the item gets in the destination folder; `None` keeps the source's
    /// own file name.
    pub dest_name: Option<String>,
    /// True when an existing item of the same name in the destination may be
    /// replaced.
    pub overwrite: bool,
}

impl Clone for TransferItem {
    fn clone(&self) -> (r: Self)
        ensures
            r == *self,
    {
        let dest_name = match &self.dest_name {
            Some(n) => Some(n.clone()),
            None => None,
        };
        TransferItem { src: self.src.clone(), dest_name, overwrite: self.overwrite }
    }
}

impl TransferItem {
    /// A plain transfer: keep the source name, never overwrite.
    pub fn plain(src: String) -> (r: Self)
        ensures
            r == (TransferItem { src, dest_name: None, overwrite: false }),
    {
        TransferItem { src, dest_name: None, overwrite: false }
    }

    /// The exact destination path of this item inside `dest_dir`.
    pub open spec fn dest_in(self, dest_dir: Seq<char>) -> Option<Seq<char>> {
        match self.dest_name {
            Some(n) => Some(path::joined_path(dest_dir, n@)),
            None => match path::file_name_of(self.src@) {
                Some(n) => Some(path::joined_path(dest_dir, n)),
                None => None,
            },
        }
    }

    /// The exact destination path of this item inside `dest_dir`.
    pub fn dest_path(&self, dest_dir: &str) -> (r: Option<String>)
        ensures
            match r {
                Some(d) => self.dest_in(dest_dir@) == Some(d@),
                None => self.dest_in(dest_dir@) is None,
            },
    {
        match &self.dest_name {
            Some(n) => Some(join(dest_dir, n.as_str())),
            None => match file_name(self.src.as_str()) {
                Some(n) => Some(join(dest_dir, n.as_str())),
                None => None,
            },
        }
    }
}

/// The name that is shown while the item at `dest` is dealt with.
pub open spec fn name_at(dest: Seq<char>) -> Seq<char> {
    match path::file_name_of(dest) {
        Some(n) => n,
        None => ""@,
    }
}

fn shown_at(dest: &str) -> (r: String)
    ensures
        r@ == name_at(dest@),
{
    match file_name(dest) {
        Some(n) => n,
        None => "".to_owned(),
    }
}

/// The report with which the copy of one item to `dest` begins.
pub fn copy_item_transfer(dest: &str, done: u64, total: u64) -> (r: ProgressUpdate)
    ensures
        r.tells(done, total, name_at(dest@)),
{
    ProgressUpdate { files_done: done, files_total: total, current_file: shown_at(dest) }
}

/// The report of a file that has been copied to the place of `item`.
pub fn copied_update(item: &CopyItem, done: u64, total: u64) -> (r: ProgressUpdate)
    ensures
        r.tells(done, total, name_at(item.dest@)),
{
    ProgressUpdate {
        files_done: done,
        files_total: total,
        current_file: shown_at(item.dest.as_str()),
    }
}

/// Whether an item may be moved to `dest`, once what may be replaced there has
/// been deleted.
pub fn move_item_transfer(dest: &str, dest_exists: bool) -> (r: Result<(), FsError>)
    ensures
        match r {
            Ok(_) => !dest_exists,
            Err(e) => dest_exists && e.is(
                FsErrorKind::AlreadyExists,
                fs_ops::exists_message(dest@),
            ),
        },
{
    if dest_exists {
        return Err(already_exists(dest));
    }
    Ok(())
}

/// The report of an item of `count` files that was moved by renaming it.
pub fn moved_update(done: u64, count: u64, total: u64) -> (r: ProgressUpdate)
    requires
        done + count <= u64::MAX,
    ensures
        r.tells((done + count) as u64, total, ""@),
{
    ProgressUpdate { files_done: done + count, files_total: total, current_file: "".to_owned() }
}

// ---------------------------------------------------------------------------
// A batch
// ---------------------------------------------------------------------------

/// A copy or move of several items: the files that are done, and what went
/// wrong.
#[derive(Debug, PartialEq, Eq)]
pub struct TransferBatch {
    pub done: u64,
    pub total: u64,
    pub errors: Vec<String>,
}

/// What is told of an item that could not be dealt with.
pub open spec fn item_error(p: Seq<char>, error: Seq<char>) -> Seq<char> {
    p + ": "@ + error
}

fn error_line(p: &str, error: &str) -> (r: String)
    ensures
        r@ == item_error(p@, error@),
{
    let mut line = p.to_owned();
    line.append(": ");
    line.append(error);
    line
}

/// The status of a batch that ended with `errors`: completed with `message`
/// where there are none, else all of them, one to a line.
pub open spec fn ends_as(errors: Seq<Seq<char>>, message: Seq<char>, r: OpStatus) -> bool {
    if errors.len() == 0 {
        r matches OpStatus::Completed(m) && m@ == message
    } else {
        r matches OpStatus::Failed(m) && m@ == text::joined(errors, "\n"@)
    }
}

impl TransferBatch {
    /// A batch of `total` files that has just been counted.
    pub fn new(total: u64) -> (r: Self)
        ensures
            r.done == 0,
            r.total == total,
            r.errors@.len() == 0,
    {
        TransferBatch { done: 0, total, errors: Vec::new() }
    }

    /// Takes in the end of one item: the number of files that are done with it,
    /// or what went wrong. An item that fails leaves the count as it was.
    pub fn record(&mut self, src: &str, result: Result<u64, String>)
        ensures
            final(self).total == old(self).total,
            match result {
                Ok(n) => final(self).done == n && final(self).errors == old(self).errors,
                Err(e) => {
                    &&& final(self).done == old(self).done
                    &&& text::texts(final(self).errors@) == text::texts(old(self).errors@).push(
                        item_error(src@, e@),
                    )
                },
            },
    {
        match result {
            Ok(n) => {
                self.done = n;
            },
            Err(e) => {
                let ghost was = text::texts(self.errors@);
                self.errors.push(error_line(src, e.as_str()));
                assert(text::texts(self.errors@) =~= was.push(item_error(src@, e@)));
            },
        }
    }

    /// The status of a copy into `dest_dir` that has come to its end.
    pub fn finish_copy(&self, dest_dir: &str) -> (r: OpStatus)
        ensures
            ends_as(text::texts(self.errors@), "Copied into "@ + dest_dir@, r),
    {
        let mut m = "Copied into ".to_owned();
        m.append(dest_dir);
        finish(&self.errors, m)
    }

    /// The status of a move into `dest_dir` that has come to its end.
    pub fn finish_move(&self, dest_dir: &str) -> (r: OpStatus)
        ensures
            ends_as(text::texts(self.errors@), "Moved into "@ + dest_dir@, r),
    {
        let mut m = "Moved into ".to_owned();
        m.append(dest_dir);
        finish(&self.errors, m)
    }
}

fn finish(errors: &Vec<String>, message: String) -> (r: OpStatus)
    ensures
        ends_as(text::texts(errors@), message@, r),
{
    if errors.len() == 0 {
        OpStatus::Completed(message)
    } else {
        OpStatus::Failed(join_texts(errors, "\n"))
    }
}

/// What became of one path that was deleted.
#[derive(Debug, PartialEq, Eq)]
pub enum Deletion {
    /// It is in the Recycle Bin.
    Trashed,
    /// There is no Recycle Bin for it, and it was deleted for good.
    Permanent,
    /// It could not be deleted.
    Failed(String),
}

/// A deletion of several paths.
#[derive(Debug, PartialEq, Eq)]
pub struct DeleteBatch {
    pub total: u64,
    pub permanent: u64,
    pub errors: Vec<String>,
}

/// The message of a deletion without errors, `permanent` of whose paths were
/// deleted for good.
pub open spec fn deleted_message(permanent: nat) -> Seq<char> {
    if permanent > 0 {
        "Deleted "@ + text::decimal(permanent) + " item(s) permanently (network drive)"@
    } else {
        "Sent to Recycle Bin"@
    }
}

impl DeleteBatch {
    /// A deletion of `total` paths that has just begun.
    pub fn new(total: u64) -> (r: Self)
        ensures
            r.total == total,
            r.permanent == 0,
            r.errors@.len() == 0,
    {
        DeleteBatch { total, permanent: 0, errors: Vec::new() }
    }

    /// The report before the path with number `i` is deleted.
    pub fn update(&self, i: u64, p: &str) -> (r: ProgressUpdate)
        ensures
            r.tells(i, self.total, name_at(p@)),
    {
        ProgressUpdate { files_done: i, files_total: self.total, current_file: shown_at(p) }
    }

    /// The report after the last path.
    pub fn last_update(&self) -> (r: ProgressUpdate)
        ensures
            r.tells(self.total, self.total, ""@),
    {
        ProgressUpdate {
            files_done: self.total,
            files_total: self.total,
            current_file: "".to_owned(),
        }
    }

    /// Takes in what became of the path `p`.
    pub fn record(&mut self, p: &str, outcome: Deletion)
        requires
            old(self).permanent < u64::MAX,
        ensures
            final(self).total == old(self).total,
            final(self).permanent == old(self).permanent + (if outcome is Permanent {
                1int
            } else {
                0
            }),
            text::texts(final(self).errors@) == (match outcome {
                Deletion::Failed(e) => text::texts(old(self).errors@).push(item_error(p@, e@)),
                _ => text::texts(old(self).errors@),
            }),
    {
        match outcome {
            Deletion::Trashed => {},
            Deletion::Permanent => {
                self.permanent = self.permanent + 1;
            },
            Deletion::Failed(e) => {
                let ghost was = text::texts(self.errors@);
                self.errors.push(error_line(p, e.as_str()));
                assert(text::texts(self.errors@) =~= was.push(item_error(p@, e@)));
            },
        }
    }

    /// The status of a deletion that has come to its end.
    pub fn finish(&self) -> (r: OpStatus)
        ensures
            ends_as(text::texts(self.errors@), deleted_message(self.permanent as nat), r),
    {
        let m = if self.permanent > 0 {
            let mut m = "Deleted ".to_owned();
            m.append(u64_to_string(self.permanent).as_str());
            m.append(" item(s) permanently (network drive)");
            m
        } else {
            "Sent to Recycle Bin".to_owned()
        };
        finish(&self.errors, m)
    }
}

/// A batch is completed exactly where no item of it failed.
pub proof fn law_one_failure_fails_the_batch(
    errors: Seq<Seq<char>>,
    message: Seq<char>,
    r: OpStatus,
)
    requires
        ends_as(errors, message, r),
    ensures
        r is Completed <==> errors.len() == 0,
        r is Failed <==> errors.len() > 0,
{
}

proof fn lemma_files_in_both(a: Seq<FileCount>, b: Seq<FileCount>)
    ensures
        files_in(a + b) == files_in(a) + files_in(b),
    decreases b.len(),
{
    if b.len() == 0 {
        assert(a + b =~= a);
    } else {
        lemma_files_in_both(a, b.drop_last());
        assert((a + b).drop_last() =~= a + b.drop_last());
    }
}

/// Every file is counted once: a file counts as one, a folder as the files in
/// it, and two lots together as many as they count each.
pub proof fn law_every_file_is_counted_once(
    a: &Vec<FileCount>,
    b: &Vec<FileCount>,
    both: &Vec<FileCount>,
    ra: u64,
    rb: u64,
    r: u64,
)
    requires
        call_ensures(count_files, (a,), ra),
        call_ensures(count_files, (b,), rb),
        call_ensures(count_files, (both,), r),
        both@ == a@ + b@,
        b@.len() == 1,
    ensures
        r == ra + rb,
        a@.len() == 0 ==> ra == 0,
        rb == (match b@[0] {
            FileCount::File => 1,
            FileCount::Folder(n) => n,
        }),
{
    lemma_files_in_both(a@, b@);
    assert(b@.drop_last() =~= Seq::empty());
    assert(files_in(b@.drop_last()) == 0);
    assert(b@.last() == b@[0]);
}

/// What is shown of a background operation is what it reported last.
pub proof fn law_the_latest_report_is_shown(u: ProgressUpdate, s: OpStatus)
    ensures
        forall|op: &mut BackgroundOp, updates: Vec<ProgressUpdate>, statuses: Vec<OpStatus>, r: bool|
            #[trigger] call_ensures(BackgroundOp::poll, (op, updates, statuses), r) ==> {
                &&& updates@.len() > 0 && updates@.last() == u ==> final(op).progress == u
                &&& updates@.len() == 0 ==> final(op).progress == op.progress
                &&& statuses@.len() > 0 && statuses@.last() == s ==> final(op).status == s
                &&& statuses@.len() == 0 ==> final(op).status == op.status
                &&& r <==> final(op).status is Running
            },
{
}

/// Every error of a batch is told at its end, with the path it is about.
pub proof fn law_every_error_is_told(b: TransferBatch, dir: &str, copied: OpStatus, moved: OpStatus, i: int)
    requires
        call_ensures(TransferBatch::finish_copy, (&b, dir), copied),
        call_ensures(TransferBatch::finish_move, (&b, dir), moved),
        0 <= i < b.errors@.len(),
    ensures
        copied matches OpStatus::Failed(m) && text::occurs(m@, b.errors@[i]@),
        moved matches OpStatus::Failed(m) && text::occurs(m@, b.errors@[i]@),
        forall|t: &mut TransferBatch, src: &str, e: String|
            #[trigger] call_ensures(TransferBatch::record, (t, src, Err::<u64, String>(e)), ()) ==> {
                &&& final(t).errors@.len() == t.errors@.len() + 1
                &&& final(t).errors@.last()@ == src@ + ": "@ + e@
            },
{
    text::lemma_joined_holds(text::texts(b.errors@), "\n"@, i);
    assert forall|t: &mut TransferBatch, src: &str, e: String|
        #[trigger] call_ensures(TransferBatch::record, (t, src, Err::<u64, String>(e)), ()) implies {
        &&& final(t).errors@.len() == t.errors@.len() + 1
        &&& final(t).errors@.last()@ == src@ + ": "@ + e@
    } by {
        let was = text::texts(t.errors@);
        let now = text::texts(final(t).errors@);
        assert(now == was.push(item_error(src@, e@)));
        assert(now.len() == final(t).errors@.len());
        assert(now.last() == final(t).errors@.last()@);
    }
}

/// An item keeps its name on its way, unless it is given another, and lands in
/// the folder that it is sent to.
pub proof fn law_an_item_lands_under_its_name(item: TransferItem, dir: &str, r: Option<String>)
    requires
        call_ensures(TransferItem::dest_path, (&item, dir), r),
    ensures
        item.dest_name is None && path::file_name_of(item.src@) is None <==> r is None,
        r is Some ==> {
            let n = match item.dest_name {
                Some(n) => n@,
                None => path::file_name_of(item.src@)->0,
            };
            &&& path_laws::plain_name(n) && path_laws::can_hold(dir@, n) ==> path::file_name_of(
                r->0@,
            ) == Some(n)
            &&& path_laws::plain_name(n) && path_laws::can_hold(dir@, n) && dir@.len() > 0 && (
            path::root_part(dir@) || !path_laws::verbatim(dir@)) ==> (path::parent_of(
                r->0@,
            ) matches Some(up) && path::same_path(up, dir@))
        },
{
    if r is Some {
        let n = match item.dest_name {
            Some(n) => n@,
            None => path::file_name_of(item.src@)->0,
        };
        if path_laws::plain_name(n) && path_laws::can_hold(dir@, n) {
            path_laws::law_name_of_joined(dir@, n);
            if dir@.len() > 0 && (path::root_part(dir@) || !path_laws::verbatim(dir@)) {
                path_laws::law_parent_of_joined(dir@, n);
            }
        }
    }
}

/// A move is refused just where something is at its destination already.
pub proof fn law_moves_replace_nothing(dest: &str, there: bool, r: Result<(), FsError>)
    requires
        call_ensures(move_item_transfer, (dest, there), r),
    ensures
        r is Ok <==> !there,
{
}

/// A deletion ends well just where nothing failed; else every failure is told,
/// with the path it is about.
pub proof fn law_failed_deletions_are_told(b: DeleteBatch, r: OpStatus, i: int)
    requires
        call_ensures(DeleteBatch::finish, (&b,), r),
    ensures
        r is Completed <==> b.errors@.len() == 0,
        0 <= i < b.errors@.len() ==> (r matches OpStatus::Failed(m) && text::occurs(
            m@,
            b.errors@[i]@,
        )),
        forall|d: &mut DeleteBatch, p: &str, e: String|
            #[trigger] call_ensures(DeleteBatch::record, (d, p, Deletion::Failed(e)), ()) ==> {
                &&& final(d).errors@.len() == d.errors@.len() + 1
                &&& final(d).errors@.last()@ == p@ + ": "@ + e@
                &&& final(d).permanent == d.permanent
            },
{
    let errors = text::texts(b.errors@);
    assert(errors.len() == b.errors@.len());
    if 0 <= i < b.errors@.len() {
        text::lemma_joined_holds(errors, "\n"@, i);
    }
    assert forall|d: &mut DeleteBatch, p: &str, e: String|
        #[trigger] call_ensures(DeleteBatch::record, (d, p, Deletion::Failed(e)), ()) implies {
        &&& final(d).errors@.len() == d.errors@.len() + 1
        &&& final(d).errors@.last()@ == p@ + ": "@ + e@
        &&& final(d).permanent == d.permanent
    } by {
        let was = text::texts(d.errors@);
        let now = text::texts(final(d).errors@);
        assert(now == was.push(item_error(p@, e@)));
        assert(now.len() == final(d).errors@.len());
        assert(now.last() == final(d).errors@.last()@);
    }
}

} // verus!
