//! What creating, renaming, copying and moving files comes to: which names are
//! accepted, where an item lands, and what stands in the way.
//!
//! Whether a path exists is answered by the caller, who also carries out what
//! is decided here.

use crate::path::{file_name, join, parent};
use crate::text::{chars_of, str_eq, trim};
use crate::{path, path_laws, session, text};
use vstd::prelude::*;

verus! {

// ---------------------------------------------------------------------------
// Errors
// ---------------------------------------------------------------------------

/// Which clipboard operation a set of clipboard paths belongs to.
#[derive(Debug, Clone, Copy, PartialEq, Eq, Structural)]
pub enum ClipboardOp {
    Copy,
    Cut,
}

/// Why a file operation is refused.
#[derive(Debug, Clone, Copy, PartialEq, Eq, Structural)]
pub enum FsErrorKind {
    AlreadyExists,
    NotFound,
    InvalidInput,
}

/// A refused file operation.
#[derive(Debug, PartialEq, Eq)]
pub struct FsError {
    pub kind: FsErrorKind,
    pub message: String,
}

impl FsError {
    /// The error is of the kind `kind` and reads `message`.
    pub open spec fn is(self, kind: FsErrorKind, message: Seq<char>) -> bool {
        self.kind == kind && self.message@ == message
    }

    /// Why the operation was refused.
    pub fn kind(&self) -> (r: FsErrorKind)
        ensures
            r == self.kind,
    {
        self.kind
    }
}

fn fs_error(kind: FsErrorKind, message: &str) -> (r: FsError)
    ensures
        r.is(kind, message@),
{
    FsError { kind, message: message.to_owned() }
}

/// The message about an item that is in the way.
pub open spec fn exists_message(dest: Seq<char>) -> Seq<char> {
    "destination already exists: "@ + dest
}

/// The error about an item that is in the way.
pub fn already_exists(dest: &str) -> (r: FsError)
    ensures
        r.is(FsErrorKind::AlreadyExists, exists_message(dest@)),
{
    let mut message = "destination already exists: ".to_owned();
    message.append(dest);
    FsError { kind: FsErrorKind::AlreadyExists, message }
}

/// Whether a file may be copied onto `dest`: nothing may be there yet.
pub fn copy_file(dest: &str, dest_exists: bool) -> (r: Result<(), FsError>)
    ensures
        match r {
            Ok(_) => !dest_exists,
            Err(e) => dest_exists && e.is(FsErrorKind::AlreadyExists, exists_message(dest@)),
        },
{
    if dest_exists {
        return Err(already_exists(dest));
    }
    Ok(())
}

// ---------------------------------------------------------------------------
// Copying and moving
// ---------------------------------------------------------------------------

/// Whether items can be put into `dest_dir`: it has to be a folder.
pub fn check_dest_dir(dest_dir: &str, is_dir: bool) -> (r: Result<(), FsError>)
    ensures
        match r {
            Ok(_) => is_dir,
            Err(e) => !is_dir && e.is(
                FsErrorKind::NotFound,
                "destination folder not found: "@ + dest_dir@,
            ),
        },
{
    if !is_dir {
        let mut message = "destination folder not found: ".to_owned();
        message.append(dest_dir);
        return Err(FsError { kind: FsErrorKind::NotFound, message });
    }
    Ok(())
}

/// The error about a source that cannot keep its name.
pub fn no_file_name() -> (r: FsError)
    ensures
        r.is(FsErrorKind::InvalidInput, "source has no file name"@),
{
    fs_error(FsErrorKind::InvalidInput, "source has no file name")
}

/// The name under which `src` is put into another folder.
pub fn src_name(src: &str) -> (r: Result<String, FsError>)
    ensures
        match r {
            Ok(n) => path::file_name_of(src@) == Some(n@),
            Err(e) => path::file_name_of(src@) is None && e.is(
                FsErrorKind::InvalidInput,
                "source has no file name"@,
            ),
        },
{
    match file_name(src) {
        Some(n) => Ok(n),
        None => Err(no_file_name()),
    }
}

/// `r` is what comes of putting `src` into `dest_dir`: the path where it lands,
/// or the first thing that stands in the way.
pub open spec fn placed<F: Fn(&String) -> bool>(
    src: Seq<char>,
    dest_dir: Seq<char>,
    dest_is_dir: bool,
    on_disk: F,
    r: Result<String, FsError>,
) -> bool {
    match path::file_name_of(src) {
        None => r matches Err(e) && e.is(FsErrorKind::InvalidInput, "source has no file name"@),
        Some(n) => {
            let dest = path::joined_path(dest_dir, n);
            if !dest_is_dir {
                r matches Err(e) && e.is(
                    FsErrorKind::NotFound,
                    "destination folder not found: "@ + dest_dir,
                )
            } else {
                match r {
                    Ok(d) => d@ == dest && session::answered(on_disk, dest, false),
                    Err(e) => e.is(FsErrorKind::AlreadyExists, exists_message(dest))
                        && session::answered(on_disk, dest, true),
                }
            }
        },
    }
}

/// Where `src` (file or directory) lands when it is copied into `dest_dir`,
/// keeping its file name. Fails if an item with the same name already exists in
/// `dest_dir`.
pub fn copy_item<F: Fn(&String) -> bool>(
    src: &str,
    dest_dir: &str,
    dest_is_dir: bool,
    on_disk: &F,
) -> (r: Result<String, FsError>)
    requires
        forall|s: &String| call_requires(*on_disk, (s,)),
    ensures
        placed(src@, dest_dir@, dest_is_dir, *on_disk, r),
{
    let name = match src_name(src) {
        Ok(n) => n,
        Err(e) => {
            return Err(e);
        },
    };
    let dest = join(dest_dir, name.as_str());
    match check_dest_dir(dest_dir, dest_is_dir) {
        Ok(_) => {},
        Err(e) => {
            return Err(e);
        },
    }
    let there: bool = on_disk(&dest);
    assert(session::answered(*on_disk, dest@, there));
    match copy_file(dest.as_str(), there) {
        Ok(_) => Ok(dest),
        Err(e) => Err(e),
    }
}

/// Where `src` (file or directory) lands when it is moved into `dest_dir`. The
/// move is a rename where possible, and a copy followed by a deletion where
/// source and destination are on different volumes.
pub fn move_item<F: Fn(&String) -> bool>(
    src: &str,
    dest_dir: &str,
    dest_is_dir: bool,
    on_disk: &F,
) -> (r: Result<String, FsError>)
    requires
        forall|s: &String| call_requires(*on_disk, (s,)),
    ensures
        placed(src@, dest_dir@, dest_is_dir, *on_disk, r),
{
    copy_item(src, dest_dir, dest_is_dir, on_disk)
}

/// What copying onto an exact path needs.
#[derive(Debug, PartialEq, Eq)]
pub struct ExactCopy {
    /// The folder that is created first, with all folders above it.
    pub parent: Option<String>,
    pub dest: String,
}

/// Prepares a copy directly to `dest` (an exact path, not a parent directory).
/// Intermediate directories are created as needed. An existing `dest` is not
/// overwritten.
pub fn copy_item_to(dest: &str, dest_exists: bool) -> (r: Result<ExactCopy, FsError>)
    ensures
        match r {
            Ok(c) => {
                &&& !dest_exists
                &&& c.dest@ == dest@
                &&& match c.parent {
                    Some(up) => path::parent_of(dest@) == Some(up@),
                    None => path::parent_of(dest@) is None,
                }
            },
            Err(e) => dest_exists && e.is(FsErrorKind::AlreadyExists, exists_message(dest@)),
        },
{
    match copy_file(dest, dest_exists) {
        Ok(_) => Ok(ExactCopy { parent: parent(dest), dest: dest.to_owned() }),
        Err(e) => Err(e),
    }
}

// ---------------------------------------------------------------------------
// Names
// ---------------------------------------------------------------------------

/// A text in quotation marks, with the characters escaped that would not show.
pub uninterp spec fn debug_text(s: Seq<char>) -> Seq<char>;

/// The `Debug` form of a `str`, as `format!` gives it: the text in quotation
/// marks, with the characters escaped that would not show. The form depends on
/// the text alone; which characters are escaped, and how, is not stated.
#[verifier::external_body]
fn quoted(s: &str) -> (r: String)
    ensures
        r@ == debug_text(s@),
{
    format!("{s:?}")
}

/// `name`, with the blanks around it left out, can name a file.
pub open spec fn valid_name(name: Seq<char>) -> bool {
    let n = text::trimmed(name);
    n.len() > 0 && n != "."@ && n != ".."@ && !n.contains('\\') && !n.contains('/')
}

/// The name that is meant by `name`, without the blanks around it. Refuses
/// empty names, path separators, and the names of the folder itself and of the
/// one above it.
pub fn validate_name(name: &str) -> (r: Result<String, FsError>)
    ensures
        match r {
            Ok(n) => valid_name(name@) && n@ == text::trimmed(name@),
            Err(e) => !valid_name(name@) && e.is(
                FsErrorKind::InvalidInput,
                "invalid name: "@ + debug_text(text::trimmed(name@)),
            ),
        },
{
    let n = trim(name);
    let cs: Vec<char> = chars_of(n.as_str());
    let mut bad: bool = cs.len() == 0 || str_eq(n.as_str(), ".") || str_eq(n.as_str(), "..");
    let mut i: usize = 0;
    let ghost start = bad;
    while i < cs.len()
        invariant
            i <= cs.len(),
            bad == (start || exists|j: int|
                0 <= j < i && (#[trigger] cs@[j] == '\\' || cs@[j] == '/')),
        decreases cs.len() - i,
    {
        if cs[i] == '\\' || cs[i] == '/' {
            bad = true;
        }
        i = i + 1;
    }
    proof {
        if n@.contains('\\') {
            let k = choose|k: int| 0 <= k < n@.len() && n@[k] == '\\';
            assert(cs@[k] == '\\');
        }
        if n@.contains('/') {
            let k = choose|k: int| 0 <= k < n@.len() && n@[k] == '/';
            assert(cs@[k] == '/');
        }
        if bad && !start {
            let k = choose|j: int|
                0 <= j < cs@.len() && (#[trigger] cs@[j] == '\\' || cs@[j] == '/');
            assert(n@[k] == cs@[k]);
        }
    }
    if bad {
        let mut message = "invalid name: ".to_owned();
        message.append(quoted(n.as_str()).as_str());
        return Err(FsError { kind: FsErrorKind::InvalidInput, message });
    }
    Ok(n)
}

/// `r` is what comes of naming a new item `name` in the folder `parent`: the
/// path of the item, or why the name is refused.
pub open spec fn named_in<F: Fn(&String) -> bool>(
    parent: Seq<char>,
    name: Seq<char>,
    on_disk: F,
    r: Result<String, FsError>,
) -> bool {
    let n = text::trimmed(name);
    let dest = path::joined_path(parent, n);
    if !valid_name(name) {
        r matches Err(e) && e.is(FsErrorKind::InvalidInput, "invalid name: "@ + debug_text(n))
    } else {
        match r {
            Ok(p) => p@ == dest && session::answered(on_disk, dest, false),
            Err(e) => e.is(
                FsErrorKind::AlreadyExists,
                "an item named "@ + debug_text(n) + " already exists"@,
            ) && session::answered(on_disk, dest, true),
        }
    }
}

/// The path of a new item called `raw_name` in `parent`.
pub fn new_path_in<F: Fn(&String) -> bool>(parent: &str, raw_name: &str, on_disk: &F) -> (r: Result<
    String,
    FsError,
>)
    requires
        forall|s: &String| call_requires(*on_disk, (s,)),
    ensures
        named_in(parent@, raw_name@, *on_disk, r),
{
    let name = match validate_name(raw_name) {
        Ok(n) => n,
        Err(e) => {
            return Err(e);
        },
    };
    let p = join(parent, name.as_str());
    let there: bool = on_disk(&p);
    assert(session::answered(*on_disk, p@, there));
    if there {
        let mut message = "an item named ".to_owned();
        message.append(quoted(name.as_str()).as_str());
        message.append(" already exists");
        return Err(FsError { kind: FsErrorKind::AlreadyExists, message });
    }
    Ok(p)
}

/// The path that `src` gets when it is renamed to `new_name` in place. Rejects
/// empty names, path separators, and names that collide with existing siblings.
pub fn rename_item<F: Fn(&String) -> bool>(src: &str, new_name: &str, on_disk: &F) -> (r: Result<
    String,
    FsError,
>)
    requires
        forall|s: &String| call_requires(*on_disk, (s,)),
    ensures
        match path::parent_of(src@) {
            Some(up) => named_in(up, new_name@, *on_disk, r),
            None => r matches Err(e) && e.is(
                FsErrorKind::InvalidInput,
                "source has no parent folder"@,
            ),
        },
{
    match parent(src) {
        Some(up) => new_path_in(up.as_str(), new_name, on_disk),
        None => Err(fs_error(FsErrorKind::InvalidInput, "source has no parent folder")),
    }
}

/// The path of a new folder `parent/name`. Fails if it already exists.
pub fn create_folder<F: Fn(&String) -> bool>(parent: &str, name: &str, on_disk: &F) -> (r: Result<
    String,
    FsError,
>)
    requires
        forall|s: &String| call_requires(*on_disk, (s,)),
    ensures
        named_in(parent@, name@, *on_disk, r),
{
    new_path_in(parent, name, on_disk)
}

/// The path of a new empty file `parent/name`. Fails if one already exists.
pub fn create_file<F: Fn(&String) -> bool>(parent: &str, name: &str, on_disk: &F) -> (r: Result<
    String,
    FsError,
>)
    requires
        forall|s: &String| call_requires(*on_disk, (s,)),
    ensures
        named_in(parent@, name@, *on_disk, r),
{
    new_path_in(parent, name, on_disk)
}

/// Nothing is written over: an item that is said to exist is never the place
/// where a copied, moved, created or renamed item lands.
pub proof fn law_nothing_is_written_over<F: Fn(&String) -> bool>(
    src: Seq<char>,
    dir: Seq<char>,
    name: Seq<char>,
    on_disk: F,
    r: Result<String, FsError>,
)
    requires
        placed(src, dir, true, on_disk, r) || named_in(dir, name, on_disk, r),
        r is Ok,
    ensures
        session::answered(on_disk, r->Ok_0@, false),
{
}

/// A new or renamed item is found in its folder under its name, the blanks
/// around it left out. A folder with a verbatim path has to show its root.
pub proof fn law_new_item_is_in_its_folder<F: Fn(&String) -> bool>(
    dir: Seq<char>,
    name: Seq<char>,
    on_disk: F,
    r: Result<String, FsError>,
)
    requires
        named_in(dir, name, on_disk, r),
        r is Ok,
        dir.len() > 0,
        path::prefix_kind(text::trimmed(name)) is Absent,
        path_laws::can_hold(dir, text::trimmed(name)),
    ensures
        path::file_name_of(r->Ok_0@) == Some(text::trimmed(name)),
        path::root_part(dir) || !path_laws::verbatim(dir) ==> (path::parent_of(
            r->Ok_0@,
        ) matches Some(up) && path::same_path(up, dir)),
{
    reveal_strlit(".");
    reveal_strlit("..");
    let n = text::trimmed(name);
    assert("."@ =~= seq!['.']);
    assert(".."@ =~= seq!['.', '.']);
    path_laws::law_name_of_joined(dir, n);
    if path::root_part(dir) || !path_laws::verbatim(dir) {
        path_laws::law_parent_of_joined(dir, n);
    }
}

/// A name is accepted exactly where something is left of it without the blanks
/// around it, it is neither the folder itself nor the one above, and it holds
/// no separator. What is accepted is the name without those blanks.
pub proof fn law_accepted_names(name: &str, r: Result<String, FsError>)
    requires
        call_ensures(validate_name, (name,), r),
    ensures
        r is Ok <==> {
            let n = text::trimmed(name@);
            &&& n.len() > 0
            &&& n != seq!['.']
            &&& n != seq!['.', '.']
            &&& forall|i: int| 0 <= i < n.len() ==> #[trigger] n[i] != '\\' && n[i] != '/'
        },
        r is Ok ==> r->Ok_0@ == text::trimmed(name@),
        r is Err ==> r->Err_0.kind == FsErrorKind::InvalidInput,
{
    reveal_strlit(".");
    reveal_strlit("..");
    assert("."@ =~= seq!['.']);
    assert(".."@ =~= seq!['.', '.']);
    let n = text::trimmed(name@);
    if forall|i: int| 0 <= i < n.len() ==> #[trigger] n[i] != '\\' && n[i] != '/' {
        assert(!n.contains('\\') && !n.contains('/'));
    } else {
        let i = choose|i: int| 0 <= i < n.len() && !(#[trigger] n[i] != '\\' && n[i] != '/');
        assert(n.contains(n[i]));
    }
}

/// A copied or moved item lands in the destination under its own name, and only
/// where nothing is there yet. It fails exactly where the source has no name,
/// the destination is no folder, or something of that name is there.
pub proof fn law_items_land_under_their_own_name<F: Fn(&String) -> bool>(
    src: &str,
    dest_dir: &str,
    dest_is_dir: bool,
    on_disk: F,
    r: Result<String, FsError>,
)
    requires
        call_ensures(copy_item::<F>, (src, dest_dir, dest_is_dir, &on_disk), r) || call_ensures(
            move_item::<F>,
            (src, dest_dir, dest_is_dir, &on_disk),
            r,
        ),
    ensures
        r is Ok ==> {
            &&& dest_is_dir
            &&& path::file_name_of(src@) is Some
            &&& r->Ok_0@ == path::joined_path(dest_dir@, path::file_name_of(src@)->0)
            &&& session::answered(on_disk, r->Ok_0@, false)
        },
        r is Err ==> match r->Err_0.kind {
            FsErrorKind::InvalidInput => path::file_name_of(src@) is None,
            FsErrorKind::NotFound => !dest_is_dir,
            FsErrorKind::AlreadyExists => path::file_name_of(src@) is Some && session::answered(
                on_disk,
                path::joined_path(dest_dir@, path::file_name_of(src@)->0),
                true,
            ),
        },
{
}

/// A renamed item stays in its folder, and a created one is in the folder that
/// was asked for, under the name without the blanks around it. It fails exactly
/// where the name is not accepted or is taken, or where there is no folder.
pub proof fn law_named_items_stay_in_their_folder<F: Fn(&String) -> bool>(
    dir: &str,
    src: &str,
    name: &str,
    on_disk: F,
    r: Result<String, FsError>,
)
    requires
        call_ensures(rename_item::<F>, (src, name, &on_disk), r) && path::parent_of(src@) == Some(
            dir@,
        ) || call_ensures(create_folder::<F>, (dir, name, &on_disk), r) || call_ensures(
            create_file::<F>,
            (dir, name, &on_disk),
            r,
        ),
    ensures
        r is Ok ==> {
            let n = text::trimmed(name@);
            &&& r->Ok_0@ == path::joined_path(dir@, n)
            &&& session::answered(on_disk, r->Ok_0@, false)
            &&& n.len() > 0 && n != seq!['.'] && n != seq!['.', '.']
            &&& forall|i: int| 0 <= i < n.len() ==> #[trigger] n[i] != '\\' && n[i] != '/'
        },
        r is Err ==> {
            let n = text::trimmed(name@);
            match r->Err_0.kind {
                FsErrorKind::InvalidInput => n.len() == 0 || n == seq!['.'] || n == seq!['.', '.']
                    || exists|i: int|
                    0 <= i < n.len() && (#[trigger] n[i] == '\\' || n[i] == '/'),
                FsErrorKind::AlreadyExists => session::answered(
                    on_disk,
                    path::joined_path(dir@, n),
                    true,
                ),
                FsErrorKind::NotFound => false,
            }
        },
{
    reveal_strlit(".");
    reveal_strlit("..");
    assert("."@ =~= seq!['.']);
    assert(".."@ =~= seq!['.', '.']);
    let n = text::trimmed(name@);
    if valid_name(name@) {
        assert forall|i: int| 0 <= i < n.len() implies #[trigger] n[i] != '\\' && n[i] != '/' by {
            assert(n.contains(n[i]));
        }
    }
}

/// Something without a folder around it cannot be renamed.
pub proof fn law_roots_are_not_renamed<F: Fn(&String) -> bool>(
    src: &str,
    name: &str,
    on_disk: F,
    r: Result<String, FsError>,
)
    requires
        call_ensures(rename_item::<F>, (src, name, &on_disk), r),
        path::parent_of(src@) is None,
    ensures
        r is Err,
{
}

/// Copying onto an exact path writes there and nowhere else, creates the folder
/// around it first, and is refused exactly where something is there.
pub proof fn law_exact_copies_go_where_they_are_told(
    dest: &str,
    there: bool,
    r: Result<ExactCopy, FsError>,
)
    requires
        call_ensures(copy_item_to, (dest, there), r),
    ensures
        r is Err <==> there,
        r is Ok ==> r->Ok_0.dest@ == dest@ && (r->Ok_0.parent is Some <==> path::parent_of(
            dest@,
        ) is Some),
        r is Ok && r->Ok_0.parent is Some ==> r->Ok_0.parent->0@ == path::parent_of(dest@)->0,
{
}

} // verus!
