//! Programs and files that are started from the second row of the toolbar.

use crate::text::{chars_of, contains, split_words, to_lowercase, trim};
use crate::text;
use vstd::prelude::*;

verus! {

/// A program, or a file, that can be started from the toolbar.
#[derive(Debug, PartialEq, Eq)]
pub struct Launch {
    pub id: i64,
    pub label: String,
    /// The program, or the file that is opened with its default program.
    pub target: String,
    /// What the program is handed on its command line.
    pub args: String,
    /// It has a button of its own.
    pub show_button: bool,
}

impl Clone for Launch {
    fn clone(&self) -> (r: Self)
        ensures
            r == *self,
    {
        Launch {
            id: self.id,
            label: self.label.clone(),
            target: self.target.clone(),
            args: self.args.clone(),
            show_button: self.show_button,
        }
    }
}

/// `needle`, in lower case already, occurs in `s`, letter case aside.
pub open spec fn holds(s: Seq<char>, needle: Seq<char>) -> bool {
    text::occurs(text::lowercase(s), needle)
}

/// `l` is listed under the search box for what was typed into it: its label or
/// its target holds the text.
pub open spec fn found(l: Launch, typed: Seq<char>) -> bool {
    let f = text::lowercase(typed);
    f.len() > 0 && (holds(l.label@, f) || holds(l.target@, f))
}

/// The button of `l` is shown while this is typed into the search box.
pub open spec fn button_shown(l: Launch, typed: Seq<char>) -> bool {
    let f = text::lowercase(typed);
    l.show_button && (f.len() == 0 || holds(l.label@, f))
}

/// The members of `list` that are listed under the search box.
pub open spec fn matches_of(list: Seq<Launch>, typed: Seq<char>) -> Seq<Launch>
    decreases list.len(),
{
    if list.len() == 0 {
        list
    } else {
        let before = matches_of(list.drop_last(), typed);
        if found(list.last(), typed) {
            before.push(list.last())
        } else {
            before
        }
    }
}

/// The members of `list` whose buttons are shown.
pub open spec fn buttons_of(list: Seq<Launch>, typed: Seq<char>) -> Seq<Launch>
    decreases list.len(),
{
    if list.len() == 0 {
        list
    } else {
        let before = buttons_of(list.drop_last(), typed);
        if button_shown(list.last(), typed) {
            before.push(list.last())
        } else {
            before
        }
    }
}

fn is_blank(s: &str) -> (r: bool)
    ensures
        r == (s@.len() == 0),
{
    let cs: Vec<char> = chars_of(s);
    cs.len() == 0
}

/// The launches that are listed under the search box; none while nothing is
/// typed.
pub fn search(list: &Vec<Launch>, typed: &str) -> (r: Vec<Launch>)
    ensures
        r@ == matches_of(list@, typed@),
{
    let f = to_lowercase(typed);
    let none: bool = is_blank(f.as_str());
    let mut r: Vec<Launch> = Vec::new();
    let mut i: usize = 0;
    assert(list@.subrange(0, 0) =~= Seq::<Launch>::empty());
    assert(r@ =~= matches_of(list@.subrange(0, 0), typed@));
    while i < list.len()
        invariant
            i <= list.len(),
            f@ == text::lowercase(typed@),
            none == (f@.len() == 0),
            r@ == matches_of(list@.subrange(0, i as int), typed@),
        decreases list.len() - i,
    {
        proof {
            let upto = list@.subrange(0, i + 1);
            assert(upto.drop_last() =~= list@.subrange(0, i as int));
            assert(upto.last() == list@[i as int]);
        }
        let l = &list[i];
        if !none && (contains(to_lowercase(l.label.as_str()).as_str(), f.as_str()) || contains(
            to_lowercase(l.target.as_str()).as_str(),
            f.as_str(),
        )) {
            r.push(l.clone());
        }
        i = i + 1;
    }
    assert(list@.subrange(0, list@.len() as int) =~= list@);
    r
}

/// The launches whose buttons are shown while this is typed into the search
/// box.
pub fn buttons(list: &Vec<Launch>, typed: &str) -> (r: Vec<Launch>)
    ensures
        r@ == buttons_of(list@, typed@),
{
    let f = to_lowercase(typed);
    let none: bool = is_blank(f.as_str());
    let mut r: Vec<Launch> = Vec::new();
    let mut i: usize = 0;
    assert(list@.subrange(0, 0) =~= Seq::<Launch>::empty());
    assert(r@ =~= buttons_of(list@.subrange(0, 0), typed@));
    while i < list.len()
        invariant
            i <= list.len(),
            f@ == text::lowercase(typed@),
            none == (f@.len() == 0),
            r@ == buttons_of(list@.subrange(0, i as int), typed@),
        decreases list.len() - i,
    {
        proof {
            let upto = list@.subrange(0, i + 1);
            assert(upto.drop_last() =~= list@.subrange(0, i as int));
            assert(upto.last() == list@[i as int]);
        }
        let l = &list[i];
        if l.show_button && (none || contains(
            to_lowercase(l.label.as_str()).as_str(),
            f.as_str(),
        )) {
            r.push(l.clone());
        }
        i = i + 1;
    }
    assert(list@.subrange(0, list@.len() as int) =~= list@);
    r
}

/// The words that the program of `l` is handed on its command line.
pub fn launch_args(l: &Launch) -> (r: Vec<String>)
    ensures
        text::texts(r@) == text::words(l.args@),
{
    split_words(l.args.as_str())
}

/// How a launch is described: its target, with what it is handed.
pub fn shown_command(l: &Launch) -> (r: String)
    ensures
        r@ == (if l.args@.len() == 0 {
            l.target@
        } else {
            l.target@ + " "@ + l.args@
        }),
{
    let mut r = l.target.clone();
    if !is_blank(l.args.as_str()) {
        r.append(" ");
        r.append(l.args.as_str());
    }
    r
}

/// Whether an entry of a settings page can be added: it has a name that is not
/// blank, and something has been chosen for it.
pub fn can_add(label: &str, chosen: bool) -> (r: bool)
    ensures
        r == (text::trimmed(label@).len() > 0 && chosen),
{
    !is_blank(trim(label).as_str()) && chosen
}

// ---------------------------------------------------------------------------
// The list that the settings page edits
// ---------------------------------------------------------------------------

/// What a user can start from the toolbar, oldest first.
#[derive(Debug, PartialEq, Eq)]
pub struct LaunchBook {
    pub items: Vec<Launch>,
    /// The highest identity that was ever given out.
    pub last_id: i64,
}

/// `items` without the one of identity `id`.
pub open spec fn without_id(items: Seq<Launch>, id: i64) -> Seq<Launch>
    decreases items.len(),
{
    if items.len() == 0 {
        items
    } else {
        let rest = without_id(items.drop_last(), id);
        if items.last().id == id {
            rest
        } else {
            rest.push(items.last())
        }
    }
}

/// `items` with the button of the one of identity `id` shown or not.
pub open spec fn with_button(items: Seq<Launch>, id: i64, show: bool) -> Seq<Launch> {
    items.map_values(
        |l: Launch|
            if l.id == id {
                Launch { show_button: show, ..l }
            } else {
                l
            },
    )
}

impl LaunchBook {
    /// No identity is given twice.
    pub open spec fn wf(self) -> bool {
        &&& forall|i: int, j: int|
            0 <= i < j < self.items@.len() ==> (#[trigger] self.items@[i]).id != (
            #[trigger] self.items@[j]).id
        &&& forall|i: int| 0 <= i < self.items@.len() ==> (#[trigger] self.items@[i]).id <= self.last_id
    }

    /// Nothing to start.
    pub fn new() -> (r: Self)
        ensures
            r.wf(),
            r.items@.len() == 0,
            r.last_id == 0,
    {
        LaunchBook { items: Vec::new(), last_id: 0 }
    }

    /// Adds something to start, with a button of its own. Returns its identity,
    /// unless none is left.
    pub fn add_launch(&mut self, label: &str, target: &str, args: &str) -> (r: Option<i64>)
        requires
            old(self).wf(),
        ensures
            final(self).wf(),
            match r {
                Some(id) => {
                    &&& id == old(self).last_id + 1
                    &&& final(self).last_id == id
                    &&& final(self).items@.len() == old(self).items@.len() + 1
                    &&& final(self).items@.drop_last() == old(self).items@
                    &&& ({
                        let l = final(self).items@.last();
                        &&& l.id == id
                        &&& l.label@ == label@
                        &&& l.target@ == target@
                        &&& l.args@ == args@
                        &&& l.show_button
                    })
                },
                None => old(self).last_id == i64::MAX && *final(self) == *old(self),
            },
    {
        if self.last_id == i64::MAX {
            return None;
        }
        let id: i64 = self.last_id + 1;
        let ghost before = self.items@;
        self.items.push(
            Launch {
                id,
                label: label.to_owned(),
                target: target.to_owned(),
                args: args.to_owned(),
                show_button: true,
            },
        );
        self.last_id = id;
        assert(self.items@.drop_last() =~= before);
        Some(id)
    }

    /// Removes what has the identity `id`.
    pub fn remove_launch(&mut self, id: i64)
        requires
            old(self).wf(),
        ensures
            final(self).wf(),
            final(self).items@ == without_id(old(self).items@, id),
            final(self).last_id == old(self).last_id,
    {
        let ghost all = self.items@;
        let mut kept: Vec<Launch> = Vec::new();
        let mut i: usize = 0;
        assert(kept@ =~= without_id(all.subrange(0, 0), id));
        while i < self.items.len()
            invariant
                i <= self.items.len(),
                all == self.items@,
                self.last_id == old(self).last_id,
                kept@ == without_id(all.subrange(0, i as int), id),
            decreases self.items.len() - i,
        {
            let ghost upto = all.subrange(0, i + 1);
            assert(upto.drop_last() =~= all.subrange(0, i as int));
            if self.items[i].id != id {
                kept.push(self.items[i].clone());
            }
            i += 1;
        }
        assert(all.subrange(0, i as int) =~= all);
        proof {
            lemma_without_keeps_order(all, id);
        }
        self.items = kept;
    }

    /// Shows or hides the button of what has the identity `id`.
    pub fn set_show_button(&mut self, id: i64, show: bool)
        requires
            old(self).wf(),
        ensures
            final(self).wf(),
            final(self).items@ == with_button(old(self).items@, id, show),
            final(self).last_id == old(self).last_id,
    {
        let ghost before = self.items@;
        let mut i: usize = 0;
        while i < self.items.len()
            invariant
                i <= self.items.len(),
                self.items@.len() == before.len(),
                self.last_id == old(self).last_id,
                forall|j: int|
                    0 <= j < i ==> #[trigger] self.items@[j] == with_button(before, id, show)[j],
                forall|j: int| i <= j < before.len() ==> #[trigger] self.items@[j] == before[j],
            decreases self.items.len() - i,
        {
            if self.items[i].id == id {
                self.items[i].show_button = show;
            }
            i += 1;
        }
        assert(self.items@ =~= with_button(before, id, show));
    }
}

proof fn lemma_without_keeps_order(items: Seq<Launch>, id: i64)
    requires
        forall|i: int, j: int|
            0 <= i < j < items.len() ==> (#[trigger] items[i]).id != (#[trigger] items[j]).id,
    ensures
        forall|i: int|
            0 <= i < without_id(items, id).len() ==> items.contains(
                #[trigger] without_id(items, id)[i],
            ),
        forall|i: int, j: int|
            0 <= i < j < without_id(items, id).len() ==> (#[trigger] without_id(items, id)[i]).id
                != (#[trigger] without_id(items, id)[j]).id,
    decreases items.len(),
{
    if items.len() > 0 {
        let rest = items.drop_last();
        let had = without_id(rest, id);
        let all = without_id(items, id);
        lemma_without_keeps_order(rest, id);
        assert forall|i: int| 0 <= i < all.len() implies items.contains(#[trigger] all[i]) by {
            if i < had.len() {
                assert(all[i] == had[i]);
                let k = choose|k: int| 0 <= k < rest.len() && rest[k] == had[i];
                assert(items[k] == had[i]);
            } else {
                assert(items[items.len() - 1] == all[i]);
            }
        }
        assert forall|i: int, j: int| 0 <= i < j < all.len() implies (#[trigger] all[i]).id != (
        #[trigger] all[j]).id by {
            assert(all[i] == had[i]);
            if j < had.len() {
                assert(all[j] == had[j]);
            } else {
                let k = choose|k: int| 0 <= k < rest.len() && rest[k] == had[i];
                assert(items[k] == had[i]);
            }
        }
    }
}

/// What was removed is gone.
pub proof fn law_removed_launches_are_gone(items: Seq<Launch>, id: i64)
    ensures
        forall|i: int|
            0 <= i < without_id(items, id).len() ==> (#[trigger] without_id(items, id)[i]).id != id,
    decreases items.len(),
{
    if items.len() > 0 {
        law_removed_launches_are_gone(items.drop_last(), id);
        let had = without_id(items.drop_last(), id);
        let all = without_id(items, id);
        assert forall|i: int| 0 <= i < all.len() implies (#[trigger] all[i]).id != id by {
            if i < had.len() {
                assert(all[i] == had[i]);
            }
        }
    }
}

proof fn lemma_filters(
    list: Seq<Launch>,
    typed: Seq<char>,
    f: spec_fn(Launch) -> bool,
    b: spec_fn(Launch) -> bool,
)
    requires
        forall|l: Launch| #[trigger] f(l) == found(l, typed),
        forall|l: Launch| #[trigger] b(l) == button_shown(l, typed),
    ensures
        matches_of(list, typed) == list.filter(f),
        buttons_of(list, typed) == list.filter(b),
    decreases list.len(),
{
    reveal(Seq::filter);
    if list.len() > 0 {
        lemma_filters(list.drop_last(), typed, f, b);
    }
}

/// The text stands at some place in `s`, all in lower case.
proof fn lemma_holds(s: Seq<char>, typed: Seq<char>)
    ensures
        holds(s, text::lowercase(typed)) <==> exists|at: int|
            #![trigger text::lowercase(s).subrange(at, at + text::lowercase(typed).len())]
            0 <= at && at + text::lowercase(typed).len() <= text::lowercase(s).len()
                && text::lowercase(s).subrange(at, at + text::lowercase(typed).len())
                == text::lowercase(typed),
{
    let hay = text::lowercase(s);
    let needle = text::lowercase(typed);
    if holds(s, needle) {
        let at = choose|at: int| #[trigger] text::occurs_at(hay, needle, at);
        assert(hay.subrange(at, at + needle.len()) == needle);
    }
    if exists|at: int|
        #![trigger hay.subrange(at, at + needle.len())]
        0 <= at && at + needle.len() <= hay.len() && hay.subrange(at, at + needle.len())
            == needle {
        let at = choose|at: int|
            #![trigger hay.subrange(at, at + needle.len())]
            0 <= at && at + needle.len() <= hay.len() && hay.subrange(at, at + needle.len())
                == needle;
        assert(text::occurs_at(hay, needle, at));
    }
}

/// A launch is listed under the search box exactly where something is typed that
/// stands at some place in its label or its target. Its button is shown where it
/// has one, and what is typed stands in its label, or nothing is typed. All in
/// lower case, and in the order of the list.
pub proof fn law_launches_are_found_by_their_text(list: &Vec<Launch>, typed: &str, l: Launch)
    requires
        list@.contains(l),
    ensures
        ({
            let q = text::lowercase(typed@);
            let label = text::lowercase(l.label@);
            let target = text::lowercase(l.target@);
            let in_label = exists|at: int|
                #![trigger label.subrange(at, at + q.len())]
                0 <= at && at + q.len() <= label.len() && label.subrange(at, at + q.len()) == q;
            let in_target = exists|at: int|
                #![trigger target.subrange(at, at + q.len())]
                0 <= at && at + q.len() <= target.len() && target.subrange(at, at + q.len()) == q;
            &&& forall|r: Vec<Launch>| #[trigger]
                call_ensures(search, (list, typed), r) ==> (r@.contains(l) <==> q.len() > 0 && (
                in_label || in_target))
            &&& forall|r: Vec<Launch>| #[trigger]
                call_ensures(buttons, (list, typed), r) ==> (r@.contains(l) <==> l.show_button && (
                q.len() == 0 || in_label))
        }),
{
    let f = |x: Launch| found(x, typed@);
    let b = |x: Launch| button_shown(x, typed@);
    lemma_filters(list@, typed@, f, b);
    lemma_holds(l.label@, typed@);
    lemma_holds(l.target@, typed@);
    let i = choose|i: int| 0 <= i < list@.len() && list@[i] == l;
    let found_list = list@.filter(f);
    let button_list = list@.filter(b);
    if f(l) {
        list@.lemma_filter_contains(f, i);
    } else if found_list.contains(l) {
        let k = choose|k: int| 0 <= k < found_list.len() && found_list[k] == l;
        list@.lemma_filter_pred(f, k);
    }
    if b(l) {
        list@.lemma_filter_contains(b, i);
    } else if button_list.contains(l) {
        let k = choose|k: int| 0 <= k < button_list.len() && button_list[k] == l;
        list@.lemma_filter_pred(b, k);
    }
}

proof fn lemma_without_id(items: Seq<Launch>, id: i64, p: spec_fn(Launch) -> bool)
    requires
        forall|l: Launch| #[trigger] p(l) == (l.id != id),
    ensures
        without_id(items, id) == items.filter(p),
    decreases items.len(),
{
    reveal(Seq::filter);
    if items.len() > 0 {
        lemma_without_id(items.drop_last(), id, p);
    }
}

/// A new launch comes behind the others, with a button. Removing one leaves all
/// others in their order, and showing or hiding a button changes that launch
/// alone.
pub proof fn law_launches_change_one_by_one()
    ensures
        forall|book: &mut LaunchBook, label: &str, target: &str, args: &str, r: Option<i64>|
            #[trigger]
            call_ensures(LaunchBook::add_launch, (book, label, target, args), r) && r is Some ==> {
                let new = final(book).items@.last();
                &&& final(book).items@ == book.items@ + seq![new]
                &&& new.id == r->0 && new.id > book.last_id
                &&& new.label@ == label@ && new.target@ == target@ && new.args@ == args@
                &&& new.show_button
            },
        forall|book: &mut LaunchBook, id: i64| #[trigger]
            call_ensures(LaunchBook::remove_launch, (book, id), ()) ==> final(book).items@
                == book.items@.filter(|l: Launch| l.id != id),
        forall|book: &mut LaunchBook, id: i64, show: bool, i: int|
            #![trigger call_ensures(LaunchBook::set_show_button, (book, id, show), ()), final(book).items@[i]]
            call_ensures(LaunchBook::set_show_button, (book, id, show), ()) ==> {
                &&& final(book).items@.len() == book.items@.len()
                &&& 0 <= i < book.items@.len() && book.items@[i].id != id ==> final(book).items@[i]
                    == book.items@[i]
                &&& 0 <= i < book.items@.len() && book.items@[i].id == id ==> final(book).items@[i]
                    == (Launch { show_button: show, ..book.items@[i] })
            },
{
    assert forall|book: &mut LaunchBook, label: &str, target: &str, args: &str, r: Option<i64>|
        #[trigger]
        call_ensures(LaunchBook::add_launch, (book, label, target, args), r) && r is Some implies
        final(book).items@ == book.items@ + seq![final(book).items@.last()] by {
        let now = final(book).items@;
        assert(now.drop_last() + seq![now.last()] =~= now);
    }
    assert forall|book: &mut LaunchBook, id: i64| #[trigger]
        call_ensures(LaunchBook::remove_launch, (book, id), ()) implies final(book).items@
        == book.items@.filter(|l: Launch| l.id != id) by {
        lemma_without_id(book.items@, id, |l: Launch| l.id != id);
    }
}

/// A launch hands its program the words that were typed for it, is described by
/// its target and those, and can be added where it has a name and a target.
pub proof fn law_launches_say_what_they_do(
    l: &Launch,
    args: Vec<String>,
    shown: String,
    label: &str,
    chosen: bool,
    can: bool,
)
    requires
        call_ensures(launch_args, (l,), args),
        call_ensures(shown_command, (l,), shown),
        call_ensures(can_add, (label, chosen), can),
    ensures
        text::texts(args@) == text::words(l.args@),
        text::has_prefix(shown@, l.target@) && text::has_suffix(shown@, l.args@),
        can <==> chosen && text::trimmed(label@).len() > 0,
{
    assert(shown@.subrange(0, l.target@.len() as int) =~= l.target@);
    assert(shown@.subrange(shown@.len() - l.args@.len(), shown@.len() as int) =~= l.args@);
}

} // verus!
