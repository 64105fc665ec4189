//! A deletion of several paths, step by step: each goes to the Recycle Bin, or
//! for good where there is none for it.

use crate::progress::{DeleteBatch, Deletion, OpStatus, ProgressUpdate};
use crate::{progress, text};
use vstd::prelude::*;

verus! {

/// What a deletion needs next.
#[derive(Debug, PartialEq, Eq)]
pub enum DeleteAsk {
    /// Show this to the user.
    Report(ProgressUpdate),
    /// Send what is at this path to the Recycle Bin.
    Trash(String),
    /// Delete what is at this path for good.
    Delete(String),
    /// Nothing: the deletion has ended.
    End(OpStatus),
}

/// What came of it.
#[derive(Debug, PartialEq, Eq)]
pub enum DeleteReply {
    Done,
    Failed(String),
}

/// What a deletion needs next, by its paths.
pub enum DeleteAskView {
    Report(int, int, Seq<char>),
    Trash(Seq<char>),
    Delete(Seq<char>),
    End,
}

/// What came of it, by its text.
pub enum DeleteReplyView {
    Done,
    Failed(Seq<char>),
}

impl View for DeleteAsk {
    type V = DeleteAskView;

    open spec fn view(&self) -> DeleteAskView {
        match self {
            DeleteAsk::Report(u) => DeleteAskView::Report(
                u.files_done as int,
                u.files_total as int,
                u.current_file@,
            ),
            DeleteAsk::Trash(p) => DeleteAskView::Trash(p@),
            DeleteAsk::Delete(p) => DeleteAskView::Delete(p@),
            DeleteAsk::End(_) => DeleteAskView::End,
        }
    }
}

impl View for DeleteReply {
    type V = DeleteReplyView;

    open spec fn view(&self) -> DeleteReplyView {
        match self {
            DeleteReply::Done => DeleteReplyView::Done,
            DeleteReply::Failed(e) => DeleteReplyView::Failed(e@),
        }
    }
}

/// How far the path at hand has come.
#[derive(Debug, Clone, Copy, PartialEq, Eq, Structural)]
pub enum DeleteStage {
    /// It is about to be deleted.
    Announcing,
    /// It is sent to the Recycle Bin.
    Trashing,
    /// There is no Recycle Bin for it.
    Deleting,
    /// No path is left.
    Closing,
    Over,
}

/// A deletion: its paths and where it stands.
pub struct DeleteView {
    pub paths: Seq<Seq<char>>,
    /// The place of the path at hand.
    pub at: int,
    /// The number of paths that were deleted for good.
    pub permanent: int,
    pub errors: Seq<Seq<char>>,
    pub stage: DeleteStage,
}

impl DeleteView {
    /// The path at hand.
    pub open spec fn path(self) -> Seq<char> {
        self.paths[self.at]
    }

    /// A path is at hand until all are done, and each one before it was deleted
    /// for good, or failed, at most once.
    pub open spec fn ok(self) -> bool {
        &&& 0 <= self.permanent
        &&& self.permanent + self.errors.len() <= self.at
        &&& match self.stage {
            DeleteStage::Closing => self.at == self.paths.len(),
            DeleteStage::Over => self.at == self.paths.len(),
            _ => self.at < self.paths.len(),
        }
    }

    /// The deletion as it turns to the path after the one at hand.
    pub open spec fn next(self) -> DeleteView {
        DeleteView {
            at: self.at + 1,
            stage: if self.at + 1 < self.paths.len() {
                DeleteStage::Announcing
            } else {
                DeleteStage::Closing
            },
            ..self
        }
    }

    /// What the deletion needs next.
    pub open spec fn ask(self) -> DeleteAskView {
        match self.stage {
            DeleteStage::Announcing => DeleteAskView::Report(
                self.at,
                self.paths.len() as int,
                progress::name_at(self.path()),
            ),
            DeleteStage::Trashing => DeleteAskView::Trash(self.path()),
            DeleteStage::Deleting => DeleteAskView::Delete(self.path()),
            DeleteStage::Closing => DeleteAskView::Report(
                self.paths.len() as int,
                self.paths.len() as int,
                ""@,
            ),
            DeleteStage::Over => DeleteAskView::End,
        }
    }

    /// `r` can come of what the deletion needs: a report cannot fail.
    pub open spec fn takes(self, r: DeleteReplyView) -> bool {
        match self.stage {
            DeleteStage::Over => false,
            DeleteStage::Trashing => true,
            DeleteStage::Deleting => true,
            _ => r is Done,
        }
    }

    /// The deletion after `r` came of what it needed.
    pub open spec fn after(self, r: DeleteReplyView) -> DeleteView {
        match (self.stage, r) {
            (DeleteStage::Announcing, _) => DeleteView { stage: DeleteStage::Trashing, ..self },
            (DeleteStage::Trashing, DeleteReplyView::Done) => self.next(),
            (DeleteStage::Trashing, DeleteReplyView::Failed(_)) => DeleteView {
                stage: DeleteStage::Deleting,
                ..self
            },
            (DeleteStage::Deleting, DeleteReplyView::Done) => DeleteView {
                permanent: self.permanent + 1,
                ..self
            }.next(),
            (DeleteStage::Deleting, DeleteReplyView::Failed(e)) => DeleteView {
                errors: self.errors.push(progress::item_error(self.path(), e)),
                ..self
            }.next(),
            _ => DeleteView { stage: DeleteStage::Over, ..self },
        }
    }
}

/// A deletion of several paths.
#[derive(Debug, PartialEq, Eq)]
pub struct DeleteJob {
    paths: Vec<String>,
    at: usize,
    batch: DeleteBatch,
    stage: DeleteStage,
}

impl View for DeleteJob {
    type V = DeleteView;

    closed spec fn view(&self) -> DeleteView {
        DeleteView {
            paths: text::texts(self.paths@),
            at: self.at as int,
            permanent: self.batch.permanent as int,
            errors: text::texts(self.batch.errors@),
            stage: self.stage,
        }
    }
}

/// A deletion of `paths` that has not begun.
pub open spec fn fresh_deletion(paths: Seq<Seq<char>>) -> DeleteView {
    DeleteView {
        paths,
        at: 0,
        permanent: 0,
        errors: Seq::empty(),
        stage: if paths.len() > 0 {
            DeleteStage::Announcing
        } else {
            DeleteStage::Closing
        },
    }
}

/// Deletes `paths`, to the Recycle Bin where there is one.
pub fn delete_to_trash_bg(paths: Vec<String>) -> (r: DeleteJob)
    ensures
        r@ == fresh_deletion(text::texts(paths@)),
        r.wf(),
{
    let stage = if paths.len() > 0 {
        DeleteStage::Announcing
    } else {
        DeleteStage::Closing
    };
    let batch = DeleteBatch::new(paths.len() as u64);
    assert(text::texts(batch.errors@) =~= Seq::<Seq<char>>::empty());
    DeleteJob { paths, at: 0, batch, stage }
}

impl DeleteJob {
    /// The deletion stands at a path of its own.
    pub closed spec fn wf(self) -> bool {
        self@.ok() && self.batch.total == self.paths@.len()
    }

    /// What the deletion needs next.
    pub fn ask(&self) -> (r: DeleteAsk)
        requires
            self.wf(),
        ensures
            r@ == self@.ask(),
            r matches DeleteAsk::End(status) ==> progress::ends_as(
                self@.errors,
                progress::deleted_message(self@.permanent as nat),
                status,
            ),
    {
        match self.stage {
            DeleteStage::Announcing => DeleteAsk::Report(
                self.batch.update(self.at as u64, self.paths[self.at].as_str()),
            ),
            DeleteStage::Trashing => DeleteAsk::Trash(self.paths[self.at].clone()),
            DeleteStage::Deleting => DeleteAsk::Delete(self.paths[self.at].clone()),
            DeleteStage::Closing => DeleteAsk::Report(self.batch.last_update()),
            DeleteStage::Over => DeleteAsk::End(self.batch.finish()),
        }
    }

    /// Whether `reply` can come of what the deletion needs.
    pub fn takes(&self, reply: &DeleteReply) -> (r: bool)
        ensures
            r == self@.takes(reply@),
    {
        match (self.stage, reply) {
            (DeleteStage::Over, _) => false,
            (DeleteStage::Trashing, _) => true,
            (DeleteStage::Deleting, _) => true,
            (_, DeleteReply::Done) => true,
            _ => false,
        }
    }

    fn go_on(&mut self, outcome: Deletion)
        requires
            old(self).wf(),
            old(self).at < old(self).paths.len(),
        ensures
            final(self).wf(),
            final(self)@ == (match outcome {
                Deletion::Trashed => old(self)@,
                Deletion::Permanent => DeleteView {
                    permanent: old(self)@.permanent + 1,
                    ..old(self)@
                },
                Deletion::Failed(e) => DeleteView {
                    errors: old(self)@.errors.push(progress::item_error(old(self)@.path(), e@)),
                    ..old(self)@
                },
            }).next(),
    {
        self.batch.record(self.paths[self.at].as_str(), outcome);
        self.at = self.at + 1;
        self.stage = if self.at < self.paths.len() {
            DeleteStage::Announcing
        } else {
            DeleteStage::Closing
        };
    }

    /// Takes in what came of what the deletion needed.
    pub fn take(&mut self, reply: DeleteReply)
        requires
            old(self).wf(),
            old(self)@.takes(reply@),
        ensures
            final(self).wf(),
            final(self)@ == old(self)@.after(reply@),
    {
        match (self.stage, reply) {
            (DeleteStage::Announcing, _) => {
                self.stage = DeleteStage::Trashing;
            },
            (DeleteStage::Trashing, DeleteReply::Done) => {
                self.go_on(Deletion::Trashed);
            },
            (DeleteStage::Trashing, DeleteReply::Failed(_)) => {
                self.stage = DeleteStage::Deleting;
            },
            (DeleteStage::Deleting, DeleteReply::Done) => {
                self.go_on(Deletion::Permanent);
            },
            (DeleteStage::Deleting, DeleteReply::Failed(e)) => {
                self.go_on(Deletion::Failed(e));
            },
            _ => {
                self.stage = DeleteStage::Over;
            },
        }
    }
}

// ---------------------------------------------------------------------------
// Laws
// ---------------------------------------------------------------------------

/// A path is deleted for good only right after the Recycle Bin refused it.
pub proof fn law_for_good_only_without_a_bin(v: DeleteView, r: DeleteReplyView, p: Seq<char>)
    requires
        v.ok(),
        v.takes(r),
        v.after(r).ask() == DeleteAskView::Delete(p),
    ensures
        v.ask() == DeleteAskView::Trash(p),
        r is Failed,
{
}

/// Every step keeps the paths and the bounds on what is told of them, and what
/// has been told stays told.
pub proof fn law_a_deletion_keeps_its_paths(v: DeleteView, r: DeleteReplyView)
    requires
        v.ok(),
        v.takes(r),
    ensures
        v.after(r).ok(),
        v.after(r).paths == v.paths,
        v.at <= v.after(r).at,
        v.permanent <= v.after(r).permanent,
        v.errors.is_prefix_of(v.after(r).errors),
{
}

/// The number of steps that a deletion can still take.
pub open spec fn steps_left(v: DeleteView) -> int {
    4 * (v.paths.len() - v.at) + match v.stage {
        DeleteStage::Announcing => 4int,
        DeleteStage::Trashing => 3,
        DeleteStage::Deleting => 2,
        DeleteStage::Closing => 1,
        DeleteStage::Over => 0,
    }
}

/// A deletion ends, whatever comes of its steps: each one brings the end closer.
pub proof fn law_a_deletion_ends(v: DeleteView, r: DeleteReplyView)
    requires
        v.ok(),
        v.takes(r),
    ensures
        0 <= steps_left(v.after(r)) < steps_left(v),
{
}

/// The deletion after `n` steps, where `disk` says what comes of each question.
pub open spec fn run(
    v: DeleteView,
    disk: spec_fn(DeleteAskView) -> DeleteReplyView,
    n: nat,
) -> DeleteView
    decreases n,
{
    if n == 0 {
        v
    } else {
        run(v.after(disk(v.ask())), disk, (n - 1) as nat)
    }
}

/// What these steps ask to have deleted, in their order.
pub open spec fn orders(
    v: DeleteView,
    disk: spec_fn(DeleteAskView) -> DeleteReplyView,
    n: nat,
) -> Seq<DeleteAskView>
    decreases n,
{
    if n == 0 {
        Seq::empty()
    } else {
        (if v.ask() is Trash || v.ask() is Delete {
            seq![v.ask()]
        } else {
            Seq::empty()
        }) + orders(v.after(disk(v.ask())), disk, (n - 1) as nat)
    }
}

/// What is to be deleted for `paths`: each one goes to the Recycle Bin, and is
/// deleted for good where that fails.
pub open spec fn wanted(
    paths: Seq<Seq<char>>,
    disk: spec_fn(DeleteAskView) -> DeleteReplyView,
) -> Seq<DeleteAskView>
    decreases paths.len(),
{
    if paths.len() == 0 {
        Seq::empty()
    } else {
        let p = paths[0];
        (if disk(DeleteAskView::Trash(p)) is Failed {
            seq![DeleteAskView::Trash(p), DeleteAskView::Delete(p)]
        } else {
            seq![DeleteAskView::Trash(p)]
        }) + wanted(paths.subrange(1, paths.len() as int), disk)
    }
}

/// The number of `paths` that neither went to the Recycle Bin nor could be
/// deleted for good, and that of those that were deleted for good.
pub open spec fn outcomes(
    paths: Seq<Seq<char>>,
    disk: spec_fn(DeleteAskView) -> DeleteReplyView,
) -> (nat, nat)
    decreases paths.len(),
{
    if paths.len() == 0 {
        (0, 0)
    } else {
        let p = paths[0];
        let (failed, permanent) = outcomes(paths.subrange(1, paths.len() as int), disk);
        if disk(DeleteAskView::Trash(p)) is Failed {
            if disk(DeleteAskView::Delete(p)) is Failed {
                (failed + 1, permanent)
            } else {
                (failed, permanent + 1)
            }
        } else {
            (failed, permanent)
        }
    }
}

proof fn lemma_orders(
    v: DeleteView,
    disk: spec_fn(DeleteAskView) -> DeleteReplyView,
) -> (k: nat)
    requires
        v.ok(),
        v.stage == DeleteStage::Announcing || v.stage == DeleteStage::Closing,
    ensures
        run(v, disk, k).stage == DeleteStage::Over,
        orders(v, disk, k) == wanted(v.paths.subrange(v.at, v.paths.len() as int), disk),
        run(v, disk, k).errors.len() == v.errors.len() + outcomes(
            v.paths.subrange(v.at, v.paths.len() as int),
            disk,
        ).0,
        run(v, disk, k).permanent == v.permanent + outcomes(
            v.paths.subrange(v.at, v.paths.len() as int),
            disk,
        ).1,
    decreases v.paths.len() - v.at,
{
    reveal_with_fuel(run, 5);
    reveal_with_fuel(orders, 5);
    let left = v.paths.subrange(v.at, v.paths.len() as int);
    if v.stage == DeleteStage::Closing {
        assert(left =~= Seq::<Seq<char>>::empty());
        assert(orders(v, disk, 1) =~= Seq::<DeleteAskView>::empty());
        1
    } else {
        let p = v.path();
        assert(left[0] == p);
        assert(left.subrange(1, left.len() as int) =~= v.paths.subrange(
            v.at + 1,
            v.paths.len() as int,
        ));
        let v1 = v.after(disk(v.ask()));
        assert(v1.ask() == DeleteAskView::Trash(p));
        let v2 = v1.after(disk(v1.ask()));
        if disk(v1.ask()) is Failed {
            assert(v2.ask() == DeleteAskView::Delete(p));
            let v3 = v2.after(disk(v2.ask()));
            let k = lemma_orders(v3, disk);
            let rest = orders(v3, disk, k);
            assert(orders(v2, disk, k + 1) =~= seq![DeleteAskView::Delete(p)] + rest);
            assert(orders(v1, disk, k + 2) == seq![DeleteAskView::Trash(p)] + orders(
                v2,
                disk,
                k + 1,
            ));
            assert(orders(v, disk, k + 3) =~= orders(v1, disk, k + 2));
            assert(orders(v, disk, k + 3) =~= seq![
                DeleteAskView::Trash(p),
                DeleteAskView::Delete(p),
            ] + rest);
            assert(run(v1, disk, k + 2) == run(v2, disk, k + 1));
            assert(run(v, disk, k + 3) == run(v3, disk, k));
            k + 3
        } else {
            let k = lemma_orders(v2, disk);
            assert(orders(v1, disk, k + 1) =~= seq![DeleteAskView::Trash(p)] + orders(v2, disk, k));
            assert(orders(v, disk, k + 2) =~= orders(v1, disk, k + 1));
            assert(run(v, disk, k + 2) == run(v2, disk, k));
            k + 2
        }
    }
}

/// A deletion asks for each of its paths, in their order, that it go to the
/// Recycle Bin, and where that fails that it be deleted for good. It asks for
/// nothing else to be deleted, and a path that fails stops none after it. It
/// tells of as many errors as there were paths that could not be deleted, and
/// counts those that were deleted for good.
pub proof fn law_every_path_is_deleted(
    paths: Vec<String>,
    job: DeleteJob,
    disk: spec_fn(DeleteAskView) -> DeleteReplyView,
) -> (k: nat)
    requires
        call_ensures(delete_to_trash_bg, (paths,), job),
    ensures
        run(job@, disk, k).ask() is End,
        orders(job@, disk, k) == wanted(text::texts(paths@), disk),
        run(job@, disk, k).errors.len() == outcomes(text::texts(paths@), disk).0,
        run(job@, disk, k).permanent == outcomes(text::texts(paths@), disk).1,
{
    let all = text::texts(paths@);
    assert(all.subrange(0, all.len() as int) =~= all);
    lemma_orders(job@, disk)
}

/// What a deletion asks for and how it takes in what came of it is what is told
/// of its view. At its end it is completed exactly where every path went.
pub proof fn law_a_deletion_follows_its_view()
    ensures
        forall|job: &mut DeleteJob, reply: DeleteReply| #[trigger]
            call_ensures(DeleteJob::take, (job, reply), ()) ==> final(job)@ == job@.after(reply@),
        forall|job: &DeleteJob, r: DeleteAsk| #[trigger]
            call_ensures(DeleteJob::ask, (job,), r) ==> r@ == job@.ask(),
        forall|job: &DeleteJob, status: OpStatus| #[trigger]
            call_ensures(DeleteJob::ask, (job,), DeleteAsk::End(status)) ==> {
                &&& status is Completed <==> job@.errors.len() == 0
                &&& status is Failed <==> job@.errors.len() > 0
                &&& status is Completed && job@.permanent == 0 ==> status->Completed_0@
                    == "Sent to Recycle Bin"@
                &&& status is Completed && job@.permanent > 0 ==> status->Completed_0@
                    == "Deleted "@ + text::decimal(job@.permanent as nat)
                    + " item(s) permanently (network drive)"@
            },
{
}

} // verus!
