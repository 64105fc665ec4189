//! The walk of a copy through a folder and everything under it.

use crate::path::join;
use crate::{path, text};
use vstd::prelude::*;

verus! {

/// An item that is to be copied, with the exact path where it goes.
#[derive(Debug, PartialEq, Eq)]
pub struct CopyItem {
    pub src: String,
    pub dest: String,
}

impl View for CopyItem {
    type V = (Seq<char>, Seq<char>);

    open spec fn view(&self) -> (Seq<char>, Seq<char>) {
        (self.src@, self.dest@)
    }
}

impl Clone for CopyItem {
    fn clone(&self) -> (r: Self)
        ensures
            r == *self,
    {
        CopyItem { src: self.src.clone(), dest: self.dest.clone() }
    }
}

/// A copy on its way: the items that it still has to deal with, and the files
/// that are done.
#[derive(Debug, PartialEq, Eq)]
pub struct CopyWalk {
    /// The items to deal with, the next one last.
    stack: Vec<CopyItem>,
    done: u64,
}

/// Source and destination of each of `items`.
pub open spec fn item_views(items: Seq<CopyItem>) -> Seq<(Seq<char>, Seq<char>)> {
    items.map_values(|i: CopyItem| i@)
}

/// The items in the folder `item`, in the order of their names.
pub open spec fn children(item: (Seq<char>, Seq<char>), names: Seq<Seq<char>>) -> Seq<
    (Seq<char>, Seq<char>),
> {
    names.map_values(
        |n: Seq<char>| (path::joined_path(item.0, n), path::joined_path(item.1, n)),
    )
}

impl CopyWalk {
    /// The items that the copy still has to deal with, in its order.
    pub closed spec fn todo(self) -> Seq<(Seq<char>, Seq<char>)> {
        item_views(self.stack@.reverse())
    }

    /// The number of files that have been copied.
    pub closed spec fn done(self) -> u64 {
        self.done
    }

    /// Starts copying `src` onto the exact path `dest`, with `done` files copied
    /// before.
    pub fn start(src: String, dest: String, done: u64) -> (r: Self)
        ensures
            r.todo() == seq![(src@, dest@)],
            r.done() == done,
    {
        let mut stack: Vec<CopyItem> = Vec::new();
        stack.push(CopyItem { src, dest });
        let r = CopyWalk { stack, done };
        assert(r.todo() =~= seq![(src@, dest@)]);
        r
    }

    /// Takes the next item. A folder is created at its destination and its
    /// names are handed to `enter`; a file is copied and reported to `copied`.
    pub fn next(&mut self) -> (r: Option<CopyItem>)
        ensures
            final(self).done() == old(self).done(),
            match r {
                None => old(self).todo().len() == 0 && final(self).todo() == old(self).todo(),
                Some(item) => {
                    &&& old(self).todo().len() > 0
                    &&& item@ == old(self).todo()[0]
                    &&& final(self).todo() == old(self).todo().subrange(
                        1,
                        old(self).todo().len() as int,
                    )
                },
            },
    {
        let ghost before = self.stack@;
        let r = self.stack.pop();
        proof {
            if before.len() > 0 {
                assert(before.reverse()[0] == before.last());
                assert(self.todo() =~= item_views(before.reverse()).subrange(
                    1,
                    before.len() as int,
                ));
            }
        }
        r
    }

    /// Hands the walk the names in the folder `item`.
    pub fn enter(&mut self, item: &CopyItem, names: &Vec<String>)
        ensures
            final(self).done() == old(self).done(),
            final(self).todo() == children(item@, text::texts(names@)) + old(self).todo(),
    {
        let mut i: usize = names.len();
        let ghost start = self.todo();
        let ghost all = children(item@, text::texts(names@));
        assert(all.subrange(i as int, all.len() as int) =~= Seq::<(Seq<char>, Seq<char>)>::empty());
        assert(all.subrange(i as int, all.len() as int) + start =~= start);
        while i > 0
            invariant
                i <= names.len(),
                all == children(item@, text::texts(names@)),
                self.done() == old(self).done(),
                self.todo() == all.subrange(i as int, all.len() as int) + start,
            decreases i,
        {
            i = i - 1;
            let ghost before = self.stack@;
            let child = CopyItem {
                src: join(item.src.as_str(), names[i].as_str()),
                dest: join(item.dest.as_str(), names[i].as_str()),
            };
            let ghost cv = child@;
            self.stack.push(child);
            proof {
                assert(all[i as int] == cv);
                assert(self.stack@.reverse() =~= seq![child] + before.reverse());
                assert(self.todo() =~= seq![cv] + item_views(before.reverse()));
                assert(all.subrange(i as int, all.len() as int) =~= seq![cv] + all.subrange(
                    i + 1,
                    all.len() as int,
                ));
                assert(seq![cv] + (all.subrange(i + 1, all.len() as int) + start) =~= (seq![cv]
                    + all.subrange(i + 1, all.len() as int)) + start);
            }
        }
        assert(all.subrange(0, all.len() as int) =~= all);
    }

    /// Counts a file that has been copied, and returns the number of files that
    /// are done.
    pub fn copied(&mut self) -> (r: u64)
        requires
            old(self).done() < u64::MAX,
        ensures
            final(self).todo() == old(self).todo(),
            final(self).done() == old(self).done() + 1,
            r == final(self).done(),
    {
        self.done = self.done + 1;
        self.done
    }

    /// The number of files that are done.
    pub fn files_done(&self) -> (r: u64)
        ensures
            r == self.done(),
    {
        self.done
    }
}

// ---------------------------------------------------------------------------
// What a whole copy does
// ---------------------------------------------------------------------------

/// One step of a copy.
pub enum CopyAction {
    MakeDir(Seq<char>),
    CopyFile(Seq<char>, Seq<char>),
}

/// What copying `todo` does, in its order, in a file system in which `listing`
/// gives the names in each folder, and nothing for a file. Folders that lie
/// `depth` deep are not entered.
pub open spec fn copy_actions(
    todo: Seq<(Seq<char>, Seq<char>)>,
    listing: spec_fn(Seq<char>) -> Option<Seq<Seq<char>>>,
    depth: nat,
) -> Seq<CopyAction>
    decreases depth, todo.len(),
{
    if todo.len() == 0 {
        Seq::empty()
    } else {
        let item = todo.last();
        let before = copy_actions(todo.drop_last(), listing, depth);
        match listing(item.0) {
            None => before.push(CopyAction::CopyFile(item.0, item.1)),
            Some(names) => {
                let below = if depth > 0 {
                    copy_actions(children(item, names), listing, (depth - 1) as nat)
                } else {
                    Seq::empty()
                };
                before.push(CopyAction::MakeDir(item.1)) + below
            },
        }
    }
}

/// The number of files among `todo` and in the folders among it.
pub open spec fn files_among(
    todo: Seq<Seq<char>>,
    listing: spec_fn(Seq<char>) -> Option<Seq<Seq<char>>>,
    depth: nat,
) -> nat
    decreases depth, todo.len(),
{
    if todo.len() == 0 {
        0
    } else {
        let p = todo.last();
        files_among(todo.drop_last(), listing, depth) + match listing(p) {
            None => 1,
            Some(names) => if depth > 0 {
                files_among(
                    names.map_values(|n: Seq<char>| path::joined_path(p, n)),
                    listing,
                    (depth - 1) as nat,
                )
            } else {
                0
            },
        }
    }
}

/// The number of files that `actions` copy.
pub open spec fn files_copied(actions: Seq<CopyAction>) -> nat
    decreases actions.len(),
{
    if actions.len() == 0 {
        0
    } else {
        files_copied(actions.drop_last()) + if actions.last() is CopyFile {
            1nat
        } else {
            0
        }
    }
}

/// What is done for one run of items comes before what is done for the next.
pub proof fn law_actions_follow_the_items(
    a: Seq<(Seq<char>, Seq<char>)>,
    b: Seq<(Seq<char>, Seq<char>)>,
    listing: spec_fn(Seq<char>) -> Option<Seq<Seq<char>>>,
    depth: nat,
)
    ensures
        copy_actions(a + b, listing, depth) == copy_actions(a, listing, depth) + copy_actions(
            b,
            listing,
            depth,
        ),
    decreases b.len(),
{
    if b.len() == 0 {
        assert(a + b =~= a);
        assert(copy_actions(a, listing, depth) + Seq::<CopyAction>::empty() =~= copy_actions(
            a,
            listing,
            depth,
        ));
    } else {
        law_actions_follow_the_items(a, b.drop_last(), listing, depth);
        assert((a + b).drop_last() =~= a + b.drop_last());
        assert((a + b).last() == b.last());
        assert(copy_actions(a + b, listing, depth) =~= copy_actions(a, listing, depth)
            + copy_actions(b, listing, depth));
    }
}

/// A folder is created, then filled, before the walk goes on with what follows
/// it: what `next` and `enter` do is what the whole copy does.
pub proof fn law_a_folder_is_filled_before_what_follows_it(
    todo: Seq<(Seq<char>, Seq<char>)>,
    listing: spec_fn(Seq<char>) -> Option<Seq<Seq<char>>>,
    depth: nat,
)
    requires
        todo.len() > 0,
        depth > 0,
    ensures
        copy_actions(todo, listing, depth) == (match listing(todo[0].0) {
            None => seq![CopyAction::CopyFile(todo[0].0, todo[0].1)],
            Some(names) => seq![CopyAction::MakeDir(todo[0].1)] + copy_actions(
                children(todo[0], names),
                listing,
                (depth - 1) as nat,
            ),
        }) + copy_actions(todo.subrange(1, todo.len() as int), listing, depth),
{
    let first = seq![todo[0]];
    let rest = todo.subrange(1, todo.len() as int);
    assert(todo =~= first + rest);
    law_actions_follow_the_items(first, rest, listing, depth);
    assert(first.drop_last() =~= Seq::<(Seq<char>, Seq<char>)>::empty());
    assert(copy_actions(first.drop_last(), listing, depth) =~= Seq::<CopyAction>::empty());
    assert(first.last() == todo[0]);
    let head = match listing(todo[0].0) {
        None => seq![CopyAction::CopyFile(todo[0].0, todo[0].1)],
        Some(names) => seq![CopyAction::MakeDir(todo[0].1)] + copy_actions(
            children(todo[0], names),
            listing,
            (depth - 1) as nat,
        ),
    };
    assert(copy_actions(first, listing, depth) =~= head);
}

pub(crate) proof fn lemma_files_copied_adds(a: Seq<CopyAction>, b: Seq<CopyAction>)
    ensures
        files_copied(a + b) == files_copied(a) + files_copied(b),
    decreases b.len(),
{
    if b.len() == 0 {
        assert(a + b =~= a);
    } else {
        assert((a + b).drop_last() =~= a + b.drop_last());
        lemma_files_copied_adds(a, b.drop_last());
    }
}

/// A copy that nothing stops copies as many files as were counted before it
/// began, so its progress ends at the total.
pub proof fn law_every_counted_file_is_copied(
    todo: Seq<(Seq<char>, Seq<char>)>,
    listing: spec_fn(Seq<char>) -> Option<Seq<Seq<char>>>,
    depth: nat,
)
    ensures
        files_copied(copy_actions(todo, listing, depth)) == files_among(
            todo.map_values(|i: (Seq<char>, Seq<char>)| i.0),
            listing,
            depth,
        ),
    decreases depth, todo.len(),
{
    let sources = todo.map_values(|i: (Seq<char>, Seq<char>)| i.0);
    if todo.len() > 0 {
        let item = todo.last();
        let before = copy_actions(todo.drop_last(), listing, depth);
        law_every_counted_file_is_copied(todo.drop_last(), listing, depth);
        assert(sources.drop_last() =~= todo.drop_last().map_values(
            |i: (Seq<char>, Seq<char>)| i.0,
        ));
        assert(sources.last() == item.0);
        match listing(item.0) {
            None => {
                let all = before.push(CopyAction::CopyFile(item.0, item.1));
                assert(all.drop_last() =~= before);
            },
            Some(names) => {
                let with_dir = before.push(CopyAction::MakeDir(item.1));
                assert(with_dir.drop_last() =~= before);
                let kids = children(item, names);
                let below = if depth > 0 {
                    copy_actions(kids, listing, (depth - 1) as nat)
                } else {
                    Seq::empty()
                };
                lemma_files_copied_adds(with_dir, below);
                if depth > 0 {
                    law_every_counted_file_is_copied(kids, listing, (depth - 1) as nat);
                    assert(kids.map_values(|i: (Seq<char>, Seq<char>)| i.0) =~= names.map_values(
                        |n: Seq<char>| path::joined_path(item.0, n),
                    ));
                }
            },
        }
    }
}

/// The path that is reached from `p` by going through `names`.
pub open spec fn reached(p: Seq<char>, names: Seq<Seq<char>>) -> Seq<char>
    decreases names.len(),
{
    if names.len() == 0 {
        p
    } else {
        path::joined_path(reached(p, names.drop_last()), names.last())
    }
}

/// Going from `p` through `names` leads from folder to folder, each name being
/// listed in the one before it.
pub open spec fn lies_under(
    p: Seq<char>,
    names: Seq<Seq<char>>,
    listing: spec_fn(Seq<char>) -> Option<Seq<Seq<char>>>,
) -> bool
    decreases names.len(),
{
    names.len() > 0 ==> {
        &&& lies_under(p, names.drop_last(), listing)
        &&& (listing(reached(p, names.drop_last())) matches Some(listed) && listed.contains(
            names.last(),
        ))
    }
}

/// Every folder at and under `p` is reached in fewer than `depth` steps.
pub open spec fn shallow(
    p: Seq<char>,
    listing: spec_fn(Seq<char>) -> Option<Seq<Seq<char>>>,
    depth: nat,
) -> bool {
    forall|names: Seq<Seq<char>>| #[trigger]
        lies_under(p, names, listing) && listing(reached(p, names)) is Some ==> names.len() < depth
}

/// `a` does under the destination of `item` what lies in the same place under
/// its source.
pub open spec fn mirrored(
    a: CopyAction,
    item: (Seq<char>, Seq<char>),
    listing: spec_fn(Seq<char>) -> Option<Seq<Seq<char>>>,
) -> bool {
    exists|names: Seq<Seq<char>>| #[trigger]
        lies_under(item.0, names, listing) && a == (match listing(reached(item.0, names)) {
            None => CopyAction::CopyFile(reached(item.0, names), reached(item.1, names)),
            Some(_) => CopyAction::MakeDir(reached(item.1, names)),
        })
}

proof fn lemma_lies_below(
    p: Seq<char>,
    name: Seq<char>,
    names: Seq<Seq<char>>,
    listing: spec_fn(Seq<char>) -> Option<Seq<Seq<char>>>,
)
    ensures
        lies_under(p, seq![name] + names, listing) <==> (listing(p) matches Some(listed)
            && listed.contains(name)) && lies_under(path::joined_path(p, name), names, listing),
    decreases names.len(),
{
    let all = seq![name] + names;
    assert(all.last() == if names.len() > 0 {
        names.last()
    } else {
        name
    });
    if names.len() == 0 {
        assert(all.drop_last() =~= Seq::<Seq<char>>::empty());
        assert(reached(p, all.drop_last()) == p);
        assert(lies_under(p, all.drop_last(), listing));
    } else {
        lemma_lies_below(p, name, names.drop_last(), listing);
        lemma_reached_below(p, name, names.drop_last());
        assert(all.drop_last() =~= seq![name] + names.drop_last());
    }
}

proof fn lemma_mirrored_below(
    a: CopyAction,
    item: (Seq<char>, Seq<char>),
    name: Seq<char>,
    listing: spec_fn(Seq<char>) -> Option<Seq<Seq<char>>>,
)
    requires
        listing(item.0) matches Some(listed) && listed.contains(name),
        mirrored(
            a,
            (path::joined_path(item.0, name), path::joined_path(item.1, name)),
            listing,
        ),
    ensures
        mirrored(a, item, listing),
{
    let child = (path::joined_path(item.0, name), path::joined_path(item.1, name));
    let names = choose|names: Seq<Seq<char>>| #[trigger]
        lies_under(child.0, names, listing) && a == (match listing(reached(child.0, names)) {
            None => CopyAction::CopyFile(reached(child.0, names), reached(child.1, names)),
            Some(_) => CopyAction::MakeDir(reached(child.1, names)),
        });
    lemma_reached_below(item.0, name, names);
    lemma_reached_below(item.1, name, names);
    lemma_lies_below(item.0, name, names, listing);
    assert(lies_under(item.0, seq![name] + names, listing));
}

proof fn lemma_reached_below(p: Seq<char>, name: Seq<char>, names: Seq<Seq<char>>)
    ensures
        reached(path::joined_path(p, name), names) == reached(p, seq![name] + names),
    decreases names.len(),
{
    let all = seq![name] + names;
    if names.len() == 0 {
        assert(all.drop_last() =~= Seq::<Seq<char>>::empty());
        assert(reached(p, all.drop_last()) == p);
    } else {
        lemma_reached_below(p, name, names.drop_last());
        assert(all.drop_last() =~= seq![name] + names.drop_last());
    }
}

/// Whatever a copy creates lies under the destination where its source lies
/// under the source: a file is copied from there, and a folder is one there.
pub proof fn law_a_copy_mirrors_its_source(
    todo: Seq<(Seq<char>, Seq<char>)>,
    listing: spec_fn(Seq<char>) -> Option<Seq<Seq<char>>>,
    depth: nat,
)
    ensures
        forall|i: int|
            0 <= i < copy_actions(todo, listing, depth).len() ==> exists|t: int|
                0 <= t < todo.len() && mirrored(
                    #[trigger] copy_actions(todo, listing, depth)[i],
                    #[trigger] todo[t],
                    listing,
                ),
    decreases depth, todo.len(),
{
    if todo.len() > 0 {
        let item = todo.last();
        let front = todo.drop_last();
        let before = copy_actions(front, listing, depth);
        let all = copy_actions(todo, listing, depth);
        law_a_copy_mirrors_its_source(front, listing, depth);
        let below = match listing(item.0) {
            Some(names) if depth > 0 => copy_actions(
                children(item, names),
                listing,
                (depth - 1) as nat,
            ),
            _ => Seq::<CopyAction>::empty(),
        };
        if listing(item.0) is Some && depth > 0 {
            law_a_copy_mirrors_its_source(
                children(item, listing(item.0)->0),
                listing,
                (depth - 1) as nat,
            );
        }
        assert forall|i: int| 0 <= i < all.len() implies exists|t: int|
            0 <= t < todo.len() && mirrored(#[trigger] all[i], #[trigger] todo[t], listing) by {
            if i < before.len() {
                assert(all[i] == before[i]);
                let t = choose|t: int|
                    0 <= t < front.len() && mirrored(#[trigger] before[i], #[trigger] front[t], listing);
                assert(todo[t] == front[t]);
            } else if i == before.len() {
                assert(reached(item.0, Seq::empty()) == item.0);
                assert(reached(item.1, Seq::empty()) == item.1);
                assert(lies_under(item.0, Seq::empty(), listing));
                assert(mirrored(all[i], todo[todo.len() - 1], listing));
            } else {
                let names = listing(item.0)->0;
                let kids = children(item, names);
                let k = i - before.len() - 1;
                assert(all[i] == below[k]);
                let t = choose|t: int|
                    0 <= t < kids.len() && mirrored(#[trigger] below[k], #[trigger] kids[t], listing);
                lemma_mirrored_below(below[k], item, names[t], listing);
                assert(mirrored(all[i], todo[todo.len() - 1], listing));
            }
        }
    }
}

proof fn lemma_actions_of_a_member(
    todo: Seq<(Seq<char>, Seq<char>)>,
    listing: spec_fn(Seq<char>) -> Option<Seq<Seq<char>>>,
    depth: nat,
    t: int,
    a: CopyAction,
)
    requires
        0 <= t < todo.len(),
        copy_actions(seq![todo[t]], listing, depth).contains(a),
    ensures
        copy_actions(todo, listing, depth).contains(a),
{
    let front = todo.subrange(0, t);
    let one = seq![todo[t]];
    let back = todo.subrange(t + 1, todo.len() as int);
    assert(todo =~= front + one + back);
    law_actions_follow_the_items(front + one, back, listing, depth);
    law_actions_follow_the_items(front, one, listing, depth);
    let done = copy_actions(one, listing, depth);
    let k = choose|k: int| 0 <= k < done.len() && done[k] == a;
    assert(copy_actions(todo, listing, depth)[copy_actions(front, listing, depth).len() + k] == a);
}

/// A copy leaves nothing out: whatever is reached from the source by going from
/// folder to folder is created at the same place under the destination, a file
/// by copying it.
pub proof fn law_a_copy_leaves_nothing_out(
    item: (Seq<char>, Seq<char>),
    names: Seq<Seq<char>>,
    listing: spec_fn(Seq<char>) -> Option<Seq<Seq<char>>>,
    depth: nat,
)
    requires
        lies_under(item.0, names, listing),
        names.len() <= depth,
    ensures
        copy_actions(seq![item], listing, depth).contains(
            match listing(reached(item.0, names)) {
                None => CopyAction::CopyFile(reached(item.0, names), reached(item.1, names)),
                Some(_) => CopyAction::MakeDir(reached(item.1, names)),
            },
        ),
    decreases names.len(),
{
    let todo = seq![item];
    let all = copy_actions(todo, listing, depth);
    assert(todo.drop_last() =~= Seq::<(Seq<char>, Seq<char>)>::empty());
    assert(copy_actions(todo.drop_last(), listing, depth) =~= Seq::<CopyAction>::empty());
    assert(todo.last() == item);
    if names.len() == 0 {
        assert(all[0] == match listing(item.0) {
            None => CopyAction::CopyFile(item.0, item.1),
            Some(_) => CopyAction::MakeDir(item.1),
        });
    } else {
        let name = names[0];
        let tail = names.subrange(1, names.len() as int);
        assert(names =~= seq![name] + tail);
        lemma_lies_below(item.0, name, tail, listing);
        lemma_reached_below(item.0, name, tail);
        lemma_reached_below(item.1, name, tail);
        let listed = listing(item.0)->0;
        let t = choose|t: int| 0 <= t < listed.len() && listed[t] == name;
        let kids = children(item, listed);
        let less = (depth - 1) as nat;
        law_a_copy_leaves_nothing_out(kids[t], tail, listing, less);
        let a = match listing(reached(item.0, names)) {
            None => CopyAction::CopyFile(reached(item.0, names), reached(item.1, names)),
            Some(_) => CopyAction::MakeDir(reached(item.1, names)),
        };
        lemma_actions_of_a_member(kids, listing, less, t, a);
        let below = copy_actions(kids, listing, less);
        let k = choose|k: int| 0 <= k < below.len() && below[k] == a;
        assert(all[1 + k] == a);
    }
}

pub(crate) proof fn lemma_shallow_below(
    item: (Seq<char>, Seq<char>),
    names: Seq<Seq<char>>,
    listing: spec_fn(Seq<char>) -> Option<Seq<Seq<char>>>,
    depth: nat,
)
    requires
        shallow(item.0, listing, depth),
        listing(item.0) == Some(names),
    ensures
        depth > 0,
        forall|i: int|
            0 <= i < names.len() ==> shallow(
                (#[trigger] children(item, names)[i]).0,
                listing,
                (depth - 1) as nat,
            ),
{
    assert(lies_under(item.0, Seq::empty(), listing));
    assert(reached(item.0, Seq::empty()) == item.0);
    assert forall|i: int| 0 <= i < names.len() implies shallow(
        (#[trigger] children(item, names)[i]).0,
        listing,
        (depth - 1) as nat,
    ) by {
        let child = path::joined_path(item.0, names[i]);
        assert forall|below: Seq<Seq<char>>| #[trigger]
            lies_under(child, below, listing) && listing(reached(child, below)) is Some implies
            below.len() < depth - 1 by {
            lemma_lies_below(item.0, names[i], below, listing);
            lemma_reached_below(item.0, names[i], below);
            assert(lies_under(item.0, seq![names[i]] + below, listing));
        }
    }
}

/// Handing a walk the names in a folder puts each of them, joined to the folder
/// and to its destination, in front of all that was to be done before.
pub proof fn law_a_walk_forgets_nothing()
    ensures
        forall|walk: &mut CopyWalk, item: &CopyItem, names: &Vec<String>, i: int|
            #![trigger call_ensures(CopyWalk::enter, (walk, item, names), ()), final(walk).todo()[i]]
            call_ensures(CopyWalk::enter, (walk, item, names), ()) ==> {
                &&& final(walk).todo().len() == names@.len() + walk.todo().len()
                &&& final(walk).done() == walk.done()
                &&& 0 <= i < names@.len() ==> final(walk).todo()[i] == (
                    path::joined_path(item.src@, names@[i]@),
                    path::joined_path(item.dest@, names@[i]@),
                )
                &&& names@.len() <= i < names@.len() + walk.todo().len() ==> final(walk).todo()[i]
                    == walk.todo()[i - names@.len()]
            },
        forall|walk: &mut CopyWalk, r: Option<CopyItem>| #[trigger]
            call_ensures(CopyWalk::next, (walk,), r) ==> {
                &&& r is None <==> walk.todo().len() == 0
                &&& final(walk).done() == walk.done()
                &&& r is Some ==> walk.todo() == seq![r->0@] + final(walk).todo()
            },
        forall|walk: &mut CopyWalk, r: u64| #[trigger]
            call_ensures(CopyWalk::copied, (walk,), r) ==> final(walk).todo() == walk.todo()
                && final(walk).done() == walk.done() + 1,
{
    assert forall|walk: &mut CopyWalk, r: Option<CopyItem>| #[trigger]
        call_ensures(CopyWalk::next, (walk,), r) implies {
        &&& r is None <==> walk.todo().len() == 0
        &&& final(walk).done() == walk.done()
        &&& r is Some ==> walk.todo() == seq![r->0@] + final(walk).todo()
    } by {
        if r is Some {
            assert(walk.todo() =~= seq![r->0@] + final(walk).todo());
        }
    }
}

} // verus!
