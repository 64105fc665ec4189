//! Modal dialogs: what they hold, what they say, and what confirming one that
//! names files comes to.

use crate::find::FindDialog;
use crate::fs_ops::{create_file, create_folder, rename_item, FsError};
use crate::path::rposition;
use crate::text::{chars_of, join, lines_trimmed, usize_to_string};
use crate::transfer::PasteConflict;
use crate::{fs_ops, path, path_laws, session, text};
use vstd::prelude::*;

verus! {

/// Modal dialog state (only one open at a time).
#[derive(Debug, PartialEq)]
pub enum Dialog {
    Rename { path: String, name: String },
    NewFolder { name: String },
    NewFile { name: String },
    /// A copy or move hit name collisions in the destination.
    PasteConflict(PasteConflict),
    /// The menu of a tab.
    TabContext { pane_idx: usize, tab_idx: usize },
    /// Renaming a tab's display label (independent of its folder).
    RenameTab { pane_idx: usize, tab_idx: usize, name: String },
    /// Searching for files.
    Find(FindDialog),
    /// Create a new user profile.
    NewUser { name: String },
    /// Help / user manual.
    Help,
    /// Paths ready to be deleted, waiting for confirmation.
    ConfirmDelete { paths: Vec<String> },
    /// A column header was clicked: the sorting is waiting for the user to
    /// choose whether it covers every open tab or just the one clicked.
    ApplySort { col: String, asc: bool, pane_idx: usize },
}

// ---------------------------------------------------------------------------
// Steps on disk
// ---------------------------------------------------------------------------

/// Something to be done on disk.
#[derive(Debug, PartialEq, Eq)]
pub enum FileStep {
    MakeDir(String),
    MakeFile(String),
    Rename { from: String, to: String },
}

/// A step by its paths.
pub enum StepView {
    MakeDir(Seq<char>),
    MakeFile(Seq<char>),
    Rename(Seq<char>, Seq<char>),
}

impl View for FileStep {
    type V = StepView;

    open spec fn view(&self) -> StepView {
        match self {
            FileStep::MakeDir(p) => StepView::MakeDir(p@),
            FileStep::MakeFile(p) => StepView::MakeFile(p@),
            FileStep::Rename { from, to } => StepView::Rename(from@, to@),
        }
    }
}

/// The text of an error, where there is one.
pub open spec fn error_view(e: Option<String>) -> Option<Seq<char>> {
    match e {
        Some(m) => Some(m@),
        None => None,
    }
}

/// `perform` was asked to carry out `step` and ended with `err`.
pub open spec fn performed<P: Fn(&FileStep) -> Option<String>>(
    perform: P,
    step: StepView,
    err: Option<Seq<char>>,
) -> bool {
    exists|s: &FileStep, r: Option<String>|
        s@ == step && #[trigger] call_ensures(perform, (s,), r) && error_view(r) == err
}

/// The step that creates `p`.
pub open spec fn creation(p: Seq<char>, is_dir: bool) -> StepView {
    if is_dir {
        StepView::MakeDir(p)
    } else {
        StepView::MakeFile(p)
    }
}

/// Creating an item called `name` in `parent` ended with `err`: with the reason
/// why the name is refused, or with what came of the step on disk.
pub open spec fn created<F: Fn(&String) -> bool, P: Fn(&FileStep) -> Option<String>>(
    parent: Seq<char>,
    name: Seq<char>,
    is_dir: bool,
    on_disk: F,
    perform: P,
    err: Option<Seq<char>>,
) -> bool {
    exists|r: Result<String, FsError>| #[trigger]
        fs_ops::named_in(parent, name, on_disk, r) && match r {
            Err(e) => err == Some(e.message@),
            Ok(p) => performed(perform, creation(p@, is_dir), err),
        }
}

/// Creates an item called `name` in `parent`.
pub fn create_item<F: Fn(&String) -> bool, P: Fn(&FileStep) -> Option<String>>(
    parent: &str,
    name: &str,
    is_dir: bool,
    on_disk: &F,
    perform: &P,
) -> (r: Option<String>)
    requires
        forall|s: &String| call_requires(*on_disk, (s,)),
        forall|s: &FileStep| call_requires(*perform, (s,)),
    ensures
        created(parent@, name@, is_dir, *on_disk, *perform, error_view(r)),
{
    let target = if is_dir {
        create_folder(parent, name, on_disk)
    } else {
        create_file(parent, name, on_disk)
    };
    let ghost decision = target;
    match target {
        Err(e) => {
            assert(fs_ops::named_in(parent@, name@, *on_disk, decision));
            Some(e.message)
        },
        Ok(p) => {
            let ghost pv = p@;
            let step = if is_dir {
                FileStep::MakeDir(p)
            } else {
                FileStep::MakeFile(p)
            };
            let r: Option<String> = perform(&step);
            assert(performed(*perform, creation(pv, is_dir), error_view(r)));
            assert(fs_ops::named_in(parent@, name@, *on_disk, decision));
            r
        },
    }
}

/// Renaming `src` to `name` ended with `err`.
pub open spec fn renamed<F: Fn(&String) -> bool, P: Fn(&FileStep) -> Option<String>>(
    src: Seq<char>,
    name: Seq<char>,
    on_disk: F,
    perform: P,
    err: Option<Seq<char>>,
) -> bool {
    match path::parent_of(src) {
        None => err == Some("source has no parent folder"@),
        Some(up) => exists|r: Result<String, FsError>| #[trigger]
            fs_ops::named_in(up, name, on_disk, r) && match r {
                Err(e) => err == Some(e.message@),
                Ok(p) => performed(perform, StepView::Rename(src, p@), err),
            },
    }
}

/// Renames `src` to `name`.
pub fn rename<F: Fn(&String) -> bool, P: Fn(&FileStep) -> Option<String>>(
    src: &str,
    name: &str,
    on_disk: &F,
    perform: &P,
) -> (r: Option<String>)
    requires
        forall|s: &String| call_requires(*on_disk, (s,)),
        forall|s: &FileStep| call_requires(*perform, (s,)),
    ensures
        renamed(src@, name@, *on_disk, *perform, error_view(r)),
{
    let target = rename_item(src, name, on_disk);
    let ghost decision = target;
    match target {
        Err(e) => Some(e.message),
        Ok(p) => {
            let ghost pv = p@;
            let step = FileStep::Rename { from: src.to_owned(), to: p };
            let r: Option<String> = perform(&step);
            assert(performed(*perform, StepView::Rename(src@, pv), error_view(r)));
            assert(fs_ops::named_in(path::parent_of(src@)->0, name@, *on_disk, decision));
            r
        },
    }
}

// ---------------------------------------------------------------------------
// Several folders at once
// ---------------------------------------------------------------------------

/// What came of creating several folders.
#[derive(Debug, PartialEq, Eq)]
pub struct NewFolders {
    /// All of them were created.
    pub ok: bool,
    pub message: String,
    /// The folder that is to be selected: the one that was created, where there
    /// was just one.
    pub single: Option<String>,
}

/// The lines about the folders that could not be created.
pub open spec fn failures(names: Seq<Seq<char>>, errs: Seq<Option<Seq<char>>>) -> Seq<Seq<char>>
    decreases names.len(),
{
    if names.len() == 0 {
        Seq::empty()
    } else {
        let before = failures(names.drop_last(), errs);
        match errs[names.len() - 1] {
            Some(e) => before.push(names.last() + ": "@ + e),
            None => before,
        }
    }
}

/// `r` tells of creating `names`, which ended with `errs`.
pub open spec fn tells_folders(
    names: Seq<Seq<char>>,
    errs: Seq<Option<Seq<char>>>,
    r: NewFolders,
) -> bool {
    let bad = failures(names, errs);
    if names.len() == 0 {
        !r.ok && r.message@ == "Enter at least one folder name"@ && r.single is None
    } else if bad.len() == 0 {
        &&& r.ok
        &&& r.message@ == "Created "@ + text::decimal(names.len()) + " folder(s)"@
        &&& if names.len() == 1 {
            r.single matches Some(s) && s@ == names[0]
        } else {
            r.single is None
        }
    } else {
        &&& !r.ok
        &&& r.message@ == "Created "@ + text::decimal((names.len() - bad.len()) as nat) + "/"@
            + text::decimal(names.len()) + "; "@ + text::joined(bad, "; "@)
        &&& r.single is None
    }
}

/// Creating `names` in `parent` ended with `errs`, one by one.
pub open spec fn all_created<F: Fn(&String) -> bool, P: Fn(&FileStep) -> Option<String>>(
    parent: Seq<char>,
    names: Seq<Seq<char>>,
    on_disk: F,
    perform: P,
    errs: Seq<Option<Seq<char>>>,
) -> bool {
    errs.len() == names.len() && forall|i: int|
        0 <= i < names.len() ==> created(
            parent,
            #[trigger] names[i],
            true,
            on_disk,
            perform,
            errs[i],
        )
}

proof fn lemma_failures_read_only_their_errors(
    names: Seq<Seq<char>>,
    a: Seq<Option<Seq<char>>>,
    b: Seq<Option<Seq<char>>>,
)
    requires
        a.len() >= names.len(),
        b.len() >= names.len(),
        forall|i: int| 0 <= i < names.len() ==> a[i] == b[i],
    ensures
        failures(names, a) == failures(names, b),
        failures(names, a).len() <= names.len(),
    decreases names.len(),
{
    if names.len() > 0 {
        lemma_failures_read_only_their_errors(names.drop_last(), a, b);
    }
}

/// Creates a folder for every line of `lines` that is not blank.
pub fn create_folders<F: Fn(&String) -> bool, P: Fn(&FileStep) -> Option<String>>(
    parent: &str,
    lines: &str,
    on_disk: &F,
    perform: &P,
) -> (r: NewFolders)
    requires
        forall|s: &String| call_requires(*on_disk, (s,)),
        forall|s: &FileStep| call_requires(*perform, (s,)),
    ensures
        exists|errs: Seq<Option<Seq<char>>>| #[trigger]
            all_created(parent@, text::nonblank_lines(lines@), *on_disk, *perform, errs)
                && tells_folders(text::nonblank_lines(lines@), errs, r),
{
    let names: Vec<String> = lines_trimmed(lines);
    let ghost all = text::nonblank_lines(lines@);
    let ghost mut errs: Seq<Option<Seq<char>>> = Seq::empty();
    if names.len() == 0 {
        assert(all_created(parent@, all, *on_disk, *perform, errs));
        return NewFolders {
            ok: false,
            message: "Enter at least one folder name".to_owned(),
            single: None,
        };
    }
    let mut errors: Vec<String> = Vec::new();
    let mut made: usize = 0;
    let mut i: usize = 0;
    assert(text::texts(errors@) =~= failures(all.subrange(0, 0), errs));
    while i < names.len()
        invariant
            i <= names.len(),
            all == text::texts(names@),
            forall|s: &String| call_requires(*on_disk, (s,)),
            forall|s: &FileStep| call_requires(*perform, (s,)),
            all_created(parent@, all.subrange(0, i as int), *on_disk, *perform, errs),
            text::texts(errors@) == failures(all.subrange(0, i as int), errs),
            made + errors@.len() == i,
        decreases names.len() - i,
    {
        let r = create_item(parent, names[i].as_str(), true, on_disk, perform);
        let ghost grown = errs.push(error_view(r));
        proof {
            let upto = all.subrange(0, i + 1);
            let before = all.subrange(0, i as int);
            assert(upto.drop_last() =~= before);
            assert(upto.last() == names@[i as int]@);
            lemma_failures_read_only_their_errors(before, errs, grown);
            assert forall|k: int| 0 <= k < upto.len() implies created(
                parent@,
                #[trigger] upto[k],
                true,
                *on_disk,
                *perform,
                grown[k],
            ) by {
                if k < i {
                    assert(upto[k] == before[k]);
                }
            }
            errs = grown;
        }
        match r {
            Some(e) => {
                let mut line = names[i].clone();
                line.append(": ");
                line.append(e.as_str());
                let ghost was = text::texts(errors@);
                let ghost lv = line@;
                errors.push(line);
                assert(text::texts(errors@) =~= was.push(lv));
            },
            None => {
                made = made + 1;
            },
        }
        i = i + 1;
    }
    assert(all.subrange(0, all.len() as int) =~= all);
    assert(all_created(parent@, all, *on_disk, *perform, errs));
    let mut message = "Created ".to_owned();
    message.append(usize_to_string(made).as_str());
    if errors.len() == 0 {
        message.append(" folder(s)");
        let single = if names.len() == 1 {
            assert(all[0] == names@[0]@);
            Some(names[0].clone())
        } else {
            None
        };
        NewFolders { ok: true, message, single }
    } else {
        message.append("/");
        message.append(usize_to_string(names.len()).as_str());
        message.append("; ");
        message.append(join(&errors, "; ").as_str());
        NewFolders { ok: false, message, single: None }
    }
}

// ---------------------------------------------------------------------------
// What dialogs say
// ---------------------------------------------------------------------------

/// The title of a dialog with a text box.
pub open spec fn title_of(d: Dialog) -> Option<Seq<char>> {
    match d {
        Dialog::Rename { path, name } => Some("Rename"@),
        Dialog::NewFolder { name } => Some("New Folder"@),
        Dialog::NewFile { name } => Some("New File"@),
        Dialog::NewUser { name } => Some("New User"@),
        Dialog::RenameTab { pane_idx, tab_idx, name } => Some("Rename Tab"@),
        _ => None,
    }
}

/// The title of a dialog with a text box; nothing for the others.
pub fn text_dialog_title(d: &Dialog) -> (r: Option<&'static str>)
    ensures
        match r {
            Some(t) => title_of(*d) == Some(t@),
            None => title_of(*d) is None,
        },
{
    match d {
        Dialog::Rename { path, name } => Some("Rename"),
        Dialog::NewFolder { name } => Some("New Folder"),
        Dialog::NewFile { name } => Some("New File"),
        Dialog::NewUser { name } => Some("New User"),
        Dialog::RenameTab { pane_idx, tab_idx, name } => Some("Rename Tab"),
        _ => None,
    }
}

/// How many characters of the name are selected when a renaming dialog opens:
/// for a file everything before the last dot, so that typing replaces the stem
/// and keeps the extension; for a tab all of it.
pub open spec fn preselected(d: Dialog) -> Option<nat> {
    match d {
        Dialog::Rename { path, name } => Some(
            if path::last_index_of(name@, '.') >= 0 {
                path::last_index_of(name@, '.') as nat
            } else {
                name@.len()
            },
        ),
        Dialog::RenameTab { pane_idx, tab_idx, name } => Some(name@.len()),
        _ => None,
    }
}

/// How many characters of the name are selected when a dialog opens.
pub fn preselection(d: &Dialog) -> (r: Option<usize>)
    ensures
        match r {
            Some(n) => preselected(*d) == Some(n as nat),
            None => preselected(*d) is None,
        },
{
    match d {
        Dialog::Rename { path, name } => {
            let cs: Vec<char> = chars_of(name.as_str());
            match rposition(&cs, '.') {
                Some(i) => Some(i),
                None => Some(cs.len()),
            }
        },
        Dialog::RenameTab { pane_idx, tab_idx, name } => {
            let cs: Vec<char> = chars_of(name.as_str());
            Some(cs.len())
        },
        _ => None,
    }
}

/// The question before `count` items are deleted.
pub fn delete_question(count: usize) -> (r: String)
    ensures
        r@ == "Are you sure you want to delete "@ + text::decimal(count as nat) + " item(s)?"@,
{
    let mut s = "Are you sure you want to delete ".to_owned();
    s.append(usize_to_string(count).as_str());
    s.append(" item(s)?");
    s
}

// ---------------------------------------------------------------------------
// What confirming comes to on disk
// ---------------------------------------------------------------------------

/// An item that was created without an error was free to take its name, and is
/// a folder or a file as asked, in the folder asked for, under the name that was
/// typed, trimmed.
pub proof fn law_new_items_get_their_name<
    F: Fn(&String) -> bool,
    P: Fn(&FileStep) -> Option<String>,
>(parent: &str, name: &str, is_dir: bool, on_disk: &F, perform: &P, r: Option<String>)
    requires
        call_ensures(create_item::<F, P>, (parent, name, is_dir, on_disk, perform), r),
    ensures
        r is None ==> {
            let p = path::joined_path(parent@, text::trimmed(name@));
            &&& session::answered(*on_disk, p, false)
            &&& exists|s: &FileStep| #[trigger]
                call_ensures(*perform, (s,), None::<String>) && match *s {
                    FileStep::MakeDir(q) => is_dir && q@ == p,
                    FileStep::MakeFile(q) => !is_dir && q@ == p,
                    FileStep::Rename { from, to } => false,
                }
        },
{
    if r is None {
        lemma_created(parent@, name@, is_dir, *on_disk, *perform);
    }
}

proof fn lemma_created<F: Fn(&String) -> bool, P: Fn(&FileStep) -> Option<String>>(
    parent: Seq<char>,
    name: Seq<char>,
    is_dir: bool,
    on_disk: F,
    perform: P,
)
    requires
        created(parent, name, is_dir, on_disk, perform, None),
    ensures
        ({
            let p = path::joined_path(parent, text::trimmed(name));
            &&& session::answered(on_disk, p, false)
            &&& exists|s: &FileStep| #[trigger]
                call_ensures(perform, (s,), None::<String>) && match *s {
                    FileStep::MakeDir(q) => is_dir && q@ == p,
                    FileStep::MakeFile(q) => !is_dir && q@ == p,
                    FileStep::Rename { from, to } => false,
                }
        }),
{
    let r = choose|r: Result<String, FsError>| #[trigger]
        fs_ops::named_in(parent, name, on_disk, r) && match r {
            Err(e) => false,
            Ok(p) => performed(perform, creation(p@, is_dir), None),
        };
    let p = r->Ok_0@;
    let (s, out) = choose|s: &FileStep, out: Option<String>|
        s@ == creation(p, is_dir) && #[trigger] call_ensures(perform, (s,), out) && error_view(out)
            == None::<Seq<char>>;
    assert(call_ensures(perform, (s,), None::<String>));
}

/// An item that was renamed without an error was renamed in its own folder, to
/// the name that was typed, trimmed, which was free.
pub proof fn law_renaming_stays_in_the_folder<
    F: Fn(&String) -> bool,
    P: Fn(&FileStep) -> Option<String>,
>(src: &str, name: &str, on_disk: &F, perform: &P, r: Option<String>)
    requires
        call_ensures(rename::<F, P>, (src, name, on_disk, perform), r),
    ensures
        r is None ==> (path::parent_of(src@) matches Some(up) && {
            let p = path::joined_path(up, text::trimmed(name@));
            &&& session::answered(*on_disk, p, false)
            &&& exists|s: &FileStep| #[trigger]
                call_ensures(*perform, (s,), None::<String>) && match *s {
                    FileStep::Rename { from, to } => from@ == src@ && to@ == p,
                    _ => false,
                }
        }),
{
    if r is None {
        let up = path::parent_of(src@)->0;
        let found = choose|found: Result<String, FsError>| #[trigger]
            fs_ops::named_in(up, name@, *on_disk, found) && match found {
                Err(e) => false,
                Ok(p) => performed(*perform, StepView::Rename(src@, p@), None),
            };
        let p = found->Ok_0@;
        let (s, out) = choose|s: &FileStep, out: Option<String>|
            s@ == StepView::Rename(src@, p) && #[trigger] call_ensures(*perform, (s,), out)
                && error_view(out) == None::<Seq<char>>;
        assert(call_ensures(*perform, (s,), None::<String>));
    }
}

proof fn lemma_failures(names: Seq<Seq<char>>, errs: Seq<Option<Seq<char>>>)
    requires
        errs.len() >= names.len(),
    ensures
        failures(names, errs).len() == 0 <==> forall|i: int|
            0 <= i < names.len() ==> (#[trigger] errs[i]) is None,
    decreases names.len(),
{
    if names.len() > 0 {
        lemma_failures(names.drop_last(), errs);
    }
}

/// Creating folders line by line succeeds just where there is a line to create
/// a folder for and none of the folders fails; then each of them was made where
/// it was asked for.
pub proof fn law_a_folder_is_made_for_every_line<
    F: Fn(&String) -> bool,
    P: Fn(&FileStep) -> Option<String>,
>(parent: &str, lines: &str, on_disk: &F, perform: &P, r: NewFolders, i: int)
    requires
        call_ensures(create_folders::<F, P>, (parent, lines, on_disk, perform), r),
        0 <= i < text::nonblank_lines(lines@).len(),
    ensures
        r.ok ==> {
            let n = text::nonblank_lines(lines@)[i];
            &&& created(parent@, n, true, *on_disk, *perform, None)
            &&& exists|s: &FileStep| #[trigger]
                call_ensures(*perform, (s,), None::<String>) && match *s {
                    FileStep::MakeDir(q) => q@ == path::joined_path(parent@, text::trimmed(n)),
                    _ => false,
                }
        },
        r.ok && text::nonblank_lines(lines@).len() == 1 ==> (r.single matches Some(s) && s@
            == text::nonblank_lines(lines@)[0]),
        !r.ok ==> exists|k: int, e: Seq<char>|
            0 <= k < text::nonblank_lines(lines@).len() && #[trigger] created(
                parent@,
                text::nonblank_lines(lines@)[k],
                true,
                *on_disk,
                *perform,
                Some(e),
            ),
{
    let names = text::nonblank_lines(lines@);
    let errs = choose|errs: Seq<Option<Seq<char>>>| #[trigger]
        all_created(parent@, names, *on_disk, *perform, errs) && tells_folders(names, errs, r);
    lemma_failures(names, errs);
    if r.ok {
        assert(errs[i] is None);
        assert(created(parent@, names[i], true, *on_disk, *perform, errs[i]));
        lemma_created(parent@, names[i], true, *on_disk, *perform);
    } else {
        let k = choose|k: int| 0 <= k < names.len() && (#[trigger] errs[k]) is Some;
        assert(created(parent@, names[k], true, *on_disk, *perform, errs[k]));
        assert(created(parent@, names[k], true, *on_disk, *perform, Some(errs[k]->0)));
    }
}

/// Without a line to make a folder for, none is made.
pub proof fn law_blank_lines_make_no_folder<
    F: Fn(&String) -> bool,
    P: Fn(&FileStep) -> Option<String>,
>(parent: &str, lines: &str, on_disk: &F, perform: &P, r: NewFolders)
    requires
        call_ensures(create_folders::<F, P>, (parent, lines, on_disk, perform), r),
        text::nonblank_lines(lines@).len() == 0,
    ensures
        !r.ok && r.single is None,
{
}

/// Renaming a file selects what stands before its last dot, or the whole name
/// where it has none; renaming a tab selects all of its name.
pub proof fn law_the_stem_is_selected(d: &Dialog, r: Option<usize>)
    requires
        call_ensures(preselection, (d,), r),
    ensures
        match *d {
            Dialog::Rename { path, name } => r matches Some(n) && n <= name@.len() && (n
                < name@.len() ==> name@[n as int] == '.') && forall|i: int|
                n < i < name@.len() ==> #[trigger] name@[i] != '.',
            Dialog::RenameTab { pane_idx, tab_idx, name } => r matches Some(n) && n == name@.len(),
            _ => r is None,
        },
{
    match *d {
        Dialog::Rename { path, name } => path_laws::lemma_last_index(name@, '.'),
        _ => {},
    }
}

} // verus!
