//! The folder tree of the sidebar: drives, shell folders, network servers, and
//! which of the branches are open.

use crate::path::{is_same_path, is_under, shown_name, unc_root};
use crate::text::{
    chars_of, clone_strings, nul_position, starts_with, str_eq, to_lowercase, wide_text,
};
use crate::{path, session, text};
use vstd::prelude::*;

verus! {

// ---------------------------------------------------------------------------
// Drives
// ---------------------------------------------------------------------------

/// The members of `s` whose answer is yes, in order.
pub open spec fn kept<T>(s: Seq<T>, answers: Seq<bool>) -> Seq<T>
    decreases s.len(),
{
    if s.len() == 0 {
        Seq::empty()
    } else {
        let before = kept(s.drop_last(), answers);
        if answers[s.len() - 1] {
            before.push(s.last())
        } else {
            before
        }
    }
}

/// The root of the drive with letter number `i`, as in `C:\`.
pub open spec fn drive_root(i: int) -> Seq<char> {
    seq![('A' as int + i) as char, ':', '\\']
}

/// The roots of the drives `A:` to `Z:`.
pub open spec fn drive_roots() -> Seq<Seq<char>> {
    Seq::new(26, |i: int| drive_root(i))
}

/// `answers` are what `f` said of each of `paths`.
pub open spec fn all_answered<F: Fn(&String) -> bool>(
    f: F,
    paths: Seq<Seq<char>>,
    answers: Seq<bool>,
) -> bool {
    answers.len() == paths.len() && forall|i: int|
        0 <= i < paths.len() ==> session::answered(f, #[trigger] paths[i], answers[i])
}

/// The root of the drive with letter number `i`.
fn drive_root_text(i: u8) -> (r: String)
    requires
        i < 26,
    ensures
        r@ == drive_root(i as int),
{
    let mut r = String::new();
    r.push((65u8 + i) as char);
    r.push(':');
    r.push('\\');
    assert(r@ =~= drive_root(i as int));
    r
}

/// The drives that are there, in the order of their letters. Whether a root
/// exists is answered by `on_disk`.
pub fn list_drives<F: Fn(&String) -> bool>(on_disk: &F) -> (r: Vec<String>)
    requires
        forall|s: &String| call_requires(*on_disk, (s,)),
    ensures
        exists|answers: Seq<bool>| #[trigger]
            all_answered(*on_disk, drive_roots(), answers) && text::texts(r@) == kept(
                drive_roots(),
                answers,
            ),
{
    let mut r: Vec<String> = Vec::new();
    let mut i: u8 = 0;
    let ghost mut answers: Seq<bool> = Seq::empty();
    assert(text::texts(r@) =~= kept(drive_roots().subrange(0, 0), answers));
    while i < 26
        invariant
            i <= 26,
            forall|s: &String| call_requires(*on_disk, (s,)),
            all_answered(*on_disk, drive_roots().subrange(0, i as int), answers),
            text::texts(r@) == kept(drive_roots().subrange(0, i as int), answers),
        decreases 26 - i,
    {
        let root = drive_root_text(i);
        let there: bool = on_disk(&root);
        let ghost was = text::texts(r@);
        let ghost grown = answers.push(there);
        proof {
            let upto = drive_roots().subrange(0, i + 1);
            assert(upto.drop_last() =~= drive_roots().subrange(0, i as int));
            assert(upto.last() == root@);
            assert(session::answered(*on_disk, root@, there));
            lemma_kept_reads_only_its_answers(upto.drop_last(), answers, grown);
            assert forall|k: int| 0 <= k < upto.len() implies session::answered(
                *on_disk,
                #[trigger] upto[k],
                grown[k],
            ) by {
                if k < i {
                    assert(upto[k] == drive_roots().subrange(0, i as int)[k]);
                }
            }
            answers = grown;
        }
        if there {
            r.push(root);
            assert(text::texts(r@) =~= was.push(drive_root(i as int)));
        }
        i = i + 1;
    }
    assert(drive_roots().subrange(0, 26) =~= drive_roots());
    assert(all_answered(*on_disk, drive_roots(), answers));
    r
}

proof fn lemma_kept_reads_only_its_answers<T>(s: Seq<T>, a: Seq<bool>, b: Seq<bool>)
    requires
        a.len() >= s.len(),
        b.len() >= s.len(),
        forall|i: int| 0 <= i < s.len() ==> a[i] == b[i],
    ensures
        kept(s, a) == kept(s, b),
    decreases s.len(),
{
    if s.len() > 0 {
        lemma_kept_reads_only_its_answers(s.drop_last(), a, b);
    }
}

/// A drive is listed exactly where its root exists.
pub proof fn law_drive_is_listed_iff_it_exists(answers: Seq<bool>, i: int)
    requires
        answers.len() == 26,
        0 <= i < 26,
    ensures
        kept(drive_roots(), answers).contains(drive_root(i)) == answers[i],
{
    lemma_kept_members(drive_roots(), answers, drive_root(i));
    assert(drive_roots()[i] == drive_root(i));
    assert forall|j: int| 0 <= j < 26 && j != i implies #[trigger] drive_roots()[j]
        != drive_root(i) by {
        assert(drive_root(j)[0] != drive_root(i)[0]);
    }
}

proof fn lemma_kept_members<T>(s: Seq<T>, answers: Seq<bool>, x: T)
    requires
        answers.len() >= s.len(),
    ensures
        kept(s, answers).contains(x) == (exists|i: int|
            0 <= i < s.len() && #[trigger] s[i] == x && answers[i]),
    decreases s.len(),
{
    if s.len() > 0 {
        let front = s.drop_last();
        lemma_kept_members(front, answers, x);
        let before = kept(front, answers);
        let all = kept(s, answers);
        if all.contains(x) {
            let k = choose|k: int| 0 <= k < all.len() && all[k] == x;
            if k < before.len() {
                assert(before[k] == x);
                assert(before.contains(x));
                let i = choose|i: int| 0 <= i < front.len() && #[trigger] front[i] == x
                    && answers[i];
                assert(s[i] == x);
            } else {
                assert(s[s.len() - 1] == x);
            }
        }
        if exists|i: int| 0 <= i < s.len() && #[trigger] s[i] == x && answers[i] {
            let i = choose|i: int| 0 <= i < s.len() && #[trigger] s[i] == x && answers[i];
            if i < front.len() {
                assert(front[i] == x);
                assert(before.contains(x));
                let k = choose|k: int| 0 <= k < before.len() && before[k] == x;
                assert(all[k] == x);
            } else {
                assert(all[all.len() - 1] == x);
            }
        }
    }
}

/// What kind of storage a drive root is: distinguishes removable media (USB
/// sticks, SD cards, external drives without a fixed interface) from fixed
/// disks so the sidebar can group them.
#[derive(Debug, Clone, Copy, PartialEq, Eq, Structural)]
pub enum DriveKind {
    Removable,
    Fixed,
    Network,
    CdRom,
    Other,
}

/// The kind that the drive type code of the operating system stands for.
pub fn drive_kind(code: u32) -> (r: DriveKind)
    ensures
        r == (if code == 2 {
            DriveKind::Removable
        } else if code == 3 {
            DriveKind::Fixed
        } else if code == 4 {
            DriveKind::Network
        } else if code == 5 {
            DriveKind::CdRom
        } else {
            DriveKind::Other
        }),
{
    match code {
        2 => DriveKind::Removable,
        3 => DriveKind::Fixed,
        4 => DriveKind::Network,
        5 => DriveKind::CdRom,
        _ => DriveKind::Other,
    }
}

/// The volume label for a drive root (e.g. "Data") out of the buffer that the
/// operating system filled. Nothing where the drive has no label; a buffer
/// that no zero ends holds none.
pub fn volume_label(buffer: &Vec<u16>) -> (r: Option<String>)
    ensures
        match r {
            Some(label) => 0 < text::nul_at(buffer@) < buffer@.len() && label@
                == text::wide_text_of(buffer@),
            None => text::nul_at(buffer@) == 0 || text::nul_at(buffer@) == buffer@.len(),
        },
{
    let n: usize = nul_position(buffer);
    if n == 0 || n == buffer.len() {
        None
    } else {
        Some(wide_text(buffer))
    }
}

/// The name under which the volume of the drive `p` is opened, as in
/// `\\.\E:`, without the trailing backslash of the root path.
pub fn volume_device(p: &str) -> (r: Result<String, String>)
    ensures
        match r {
            Ok(d) => p@.len() > 0 && d@ == "\\\\.\\"@.push(p@[0]).push(':'),
            Err(e) => p@.len() == 0 && e@ == "Not a drive"@,
        },
{
    let cs: Vec<char> = chars_of(p);
    if cs.len() == 0 {
        return Err("Not a drive".to_owned());
    }
    let mut d = "\\\\.\\".to_owned();
    d.push(cs[0]);
    d.push(':');
    Ok(d)
}

/// How far an attempt to eject a drive came.
#[derive(Debug, Clone, Copy, PartialEq, Eq, Structural)]
pub enum EjectProgress {
    /// The volume could not be opened.
    NotOpened,
    /// It was opened, but could not be locked.
    NotLocked,
    /// It was dismounted, but the medium did not come out.
    Dismounted,
    /// The medium came out.
    Ejected,
}

/// The message for each way in which ejecting a drive can end: the volume is
/// locked, dismounted, and then the medium is ejected.
pub open spec fn eject_message(p: EjectProgress) -> Option<Seq<char>> {
    match p {
        EjectProgress::NotOpened => Some("Couldn't open the drive"@),
        EjectProgress::NotLocked => Some(
            "Drive is busy — close any open files on it and try again"@,
        ),
        EjectProgress::Dismounted => Some("Dismounted — it's safe to unplug now"@),
        EjectProgress::Ejected => None,
    }
}

/// The outcome of ejecting a drive.
pub fn eject_outcome(p: EjectProgress) -> (r: Result<(), String>)
    ensures
        match r {
            Ok(_) => eject_message(p) is None,
            Err(e) => eject_message(p) == Some(e@),
        },
{
    match p {
        EjectProgress::NotOpened => Err("Couldn't open the drive".to_owned()),
        EjectProgress::NotLocked => Err(
            "Drive is busy — close any open files on it and try again".to_owned(),
        ),
        EjectProgress::Dismounted => Err("Dismounted — it's safe to unplug now".to_owned()),
        EjectProgress::Ejected => Ok(()),
    }
}

// ---------------------------------------------------------------------------
// Shell folders and network servers
// ---------------------------------------------------------------------------

/// The shell folders of the sidebar, in the order in which they are shown.
pub const FOLDER_LABELS: [&'static str; 6] = [
    "Desktop",
    "Documents",
    "Downloads",
    "Music",
    "Pictures",
    "Videos",
];

/// A folder with the name under which the shell knows it.
#[derive(Debug, PartialEq, Eq)]
pub struct SystemFolder {
    pub label: String,
    pub path: String,
}

/// The paths of `folders`.
pub open spec fn folder_paths(folders: Seq<SystemFolder>) -> Seq<Seq<char>> {
    folders.map_values(|f: SystemFolder| f.path@)
}

/// The resolved shell folders that really exist. Whether a path is a folder is
/// answered by `is_dir`.
pub fn list_system_folders<F: Fn(&String) -> bool>(
    resolved: Vec<SystemFolder>,
    is_dir: &F,
) -> (r: Vec<SystemFolder>)
    requires
        forall|s: &String| call_requires(*is_dir, (s,)),
    ensures
        exists|answers: Seq<bool>| #[trigger]
            all_answered(*is_dir, folder_paths(resolved@), answers) && r@ == kept(
                resolved@,
                answers,
            ),
{
    let ghost all = resolved@;
    let mut r: Vec<SystemFolder> = Vec::new();
    let ghost mut answers: Seq<bool> = Seq::empty();
    assert(r@ =~= kept(all.subrange(0, 0), answers));
    for folder in it: resolved
        invariant
            it.seq() == all,
            forall|s: &String| call_requires(*is_dir, (s,)),
            all_answered(*is_dir, folder_paths(all.subrange(0, it.index() as int)), answers),
            r@ == kept(all.subrange(0, it.index() as int), answers),
    {
        let there: bool = is_dir(&folder.path);
        let ghost grown = answers.push(there);
        let ghost i = it.index() as int;
        proof {
            let upto = all.subrange(0, i + 1);
            assert(upto.drop_last() =~= all.subrange(0, i));
            assert(upto.last() == folder);
            assert(session::answered(*is_dir, folder.path@, there));
            lemma_kept_reads_only_its_answers(upto.drop_last(), answers, grown);
            assert forall|k: int| 0 <= k < folder_paths(upto).len() implies session::answered(
                *is_dir,
                #[trigger] folder_paths(upto)[k],
                grown[k],
            ) by {
                if k < i {
                    assert(folder_paths(upto)[k] == folder_paths(all.subrange(0, i))[k]);
                }
            }
            answers = grown;
        }
        if there {
            r.push(folder);
        }
    }
    assert(all.subrange(0, all.len() as int) =~= all);
    assert(all_answered(*is_dir, folder_paths(all), answers));
    r
}

/// `p` is one of `list`.
pub open spec fn lists_path(list: Seq<Seq<char>>, p: Seq<char>) -> bool {
    exists|i: int| 0 <= i < list.len() && path::same_path(#[trigger] list[i], p)
}

/// The servers among the names of network resources: the names that start with
/// two backslashes, each path once.
pub open spec fn servers_among(names: Seq<Seq<char>>) -> Seq<Seq<char>>
    decreases names.len(),
{
    if names.len() == 0 {
        Seq::empty()
    } else {
        let before = servers_among(names.drop_last());
        let n = names.last();
        if text::has_prefix(n, "\\\\"@) && !lists_path(before, n) {
            before.push(n)
        } else {
            before
        }
    }
}

/// Whether the path `p` is in `list`.
fn contains_path(list: &Vec<String>, p: &str) -> (r: bool)
    ensures
        r == lists_path(text::texts(list@), p@),
{
    let mut i: usize = 0;
    while i < list.len()
        invariant
            i <= list.len(),
            forall|j: int| 0 <= j < i ==> !path::same_path(#[trigger] text::texts(list@)[j], p@),
        decreases list.len() - i,
    {
        if is_same_path(list[i].as_str(), p) {
            assert(path::same_path(text::texts(list@)[i as int], p@));
            return true;
        }
        assert(!path::same_path(text::texts(list@)[i as int], p@));
        i = i + 1;
    }
    false
}

/// Returns the discovered network servers (UNC `\\server` entries) out of the
/// names of all network resources.
pub fn list_network_servers(names: &Vec<String>) -> (r: Vec<String>)
    ensures
        text::texts(r@) == servers_among(text::texts(names@)),
{
    let mut r: Vec<String> = Vec::new();
    let mut i: usize = 0;
    let ghost all = text::texts(names@);
    assert(text::texts(r@) =~= servers_among(all.subrange(0, 0)));
    while i < names.len()
        invariant
            i <= names.len(),
            all == text::texts(names@),
            text::texts(r@) == servers_among(all.subrange(0, i as int)),
        decreases names.len() - i,
    {
        proof {
            let upto = all.subrange(0, i + 1);
            assert(upto.drop_last() =~= all.subrange(0, i as int));
            assert(upto.last() == names@[i as int]@);
        }
        let name = names[i].as_str();
        if starts_with(name, "\\\\") && !contains_path(&r, name) {
            let ghost was = text::texts(r@);
            r.push(names[i].clone());
            assert(text::texts(r@) =~= was.push(name@));
        }
        i = i + 1;
    }
    assert(all.subrange(0, all.len() as int) =~= all);
    r
}

/// No server is listed twice.
pub proof fn law_servers_are_listed_once(names: Seq<Seq<char>>)
    ensures
        forall|i: int, j: int|
            0 <= i < j < servers_among(names).len() ==> !path::same_path(
                #[trigger] servers_among(names)[i],
                #[trigger] servers_among(names)[j],
            ),
    decreases names.len(),
{
    if names.len() > 0 {
        law_servers_are_listed_once(names.drop_last());
        let before = servers_among(names.drop_last());
        let all = servers_among(names);
        assert forall|i: int, j: int| 0 <= i < j < all.len() implies !path::same_path(
            #[trigger] all[i],
            #[trigger] all[j],
        ) by {
            assert(all[i] == before[i]);
            if j < before.len() {
                assert(all[j] == before[j]);
            }
        }
    }
}

/// Returns the UNC share root (`\\server\share\`) that `p` lives under, or
/// nothing where `p` isn't a UNC path. Network browsing often finds nothing on
/// modern networks, so a path the user actually navigated to may never appear
/// as a discovered server. This lets the sidebar tree show and expand to it
/// anyway.
pub fn unc_share_root(p: &str) -> (r: Option<String>)
    ensures
        match r {
            Some(root) => path::unc_root_of(p@) == Some(root@),
            None => path::unc_root_of(p@) is None,
        },
{
    unc_root(p)
}

/// The network roots of the sidebar: the servers, and the share that `active`
/// lies on unless one of the servers is written the same but for letter case.
pub open spec fn network_roots_of(servers: Seq<Seq<char>>, active: Seq<char>) -> Seq<Seq<char>> {
    match path::unc_root_of(active) {
        Some(root) => if exists|i: int|
            0 <= i < servers.len() && text::lowercase(#[trigger] servers[i]) == text::lowercase(
                root,
            ) {
            servers
        } else {
            servers.push(root)
        },
        None => servers,
    }
}

/// The network roots that the sidebar shows while `active` is open.
pub fn network_roots(servers: &Vec<String>, active: &str) -> (r: Vec<String>)
    ensures
        text::texts(r@) == network_roots_of(text::texts(servers@), active@),
{
    let mut roots: Vec<String> = clone_strings(servers);
    match unc_share_root(active) {
        Some(root) => {
            let low = to_lowercase(root.as_str());
            let mut covered: bool = false;
            let mut i: usize = 0;
            let ghost all = text::texts(servers@);
            while i < servers.len() && !covered
                invariant
                    i <= servers.len(),
                    all == text::texts(servers@),
                    low@ == text::lowercase(root@),
                    covered == (exists|j: int|
                        0 <= j < i && text::lowercase(#[trigger] all[j]) == low@),
                decreases servers.len() - i,
            {
                assert(all[i as int] == servers@[i as int]@);
                covered = str_eq(to_lowercase(servers[i].as_str()).as_str(), low.as_str());
                i = i + 1;
            }
            if !covered {
                let ghost was = text::texts(roots@);
                let ghost added = root@;
                roots.push(root);
                assert(text::texts(roots@) =~= was.push(added));
            }
        },
        None => {},
    }
    roots
}

// ---------------------------------------------------------------------------
// Branches
// ---------------------------------------------------------------------------

/// The number of frames over which the tree settles after a navigation.
pub const SETTLE_FRAMES: u32 = 8;

/// What the tree remembers from frame to frame.
#[derive(Debug, PartialEq, Eq)]
pub struct TreeView {
    /// The folder that was active when the tree last unfolded to it.
    pub shown: Option<String>,
    /// Frames over which the active folder is still scrolled to.
    pub scroll_frames: u32,
    /// Frames over which branches off the active path are still folded.
    pub collapse_frames: u32,
}

/// How one folder of the tree is drawn.
#[derive(Debug, Clone, Copy, PartialEq, Eq, Structural)]
pub struct TreeNode {
    /// It is the active folder.
    pub is_active: bool,
    /// It is folded or unfolded by force.
    pub open: Option<bool>,
    /// It is scrolled into view.
    pub scroll: bool,
}

/// `dir` is `active`, letter case aside.
pub open spec fn active_dir(dir: Seq<char>, active: Seq<char>) -> bool {
    path::same_path(text::lowercase(dir), text::lowercase(active))
}

/// `active` is `dir` or lies under it, letter case aside.
pub open spec fn on_active_path(dir: Seq<char>, active: Seq<char>) -> bool {
    path::under(text::lowercase(active), text::lowercase(dir))
}

impl TreeView {
    /// A tree that has not been drawn yet.
    pub fn new() -> (r: Self)
        ensures
            r == (TreeView { shown: None, scroll_frames: 0, collapse_frames: 0 }),
    {
        TreeView { shown: None, scroll_frames: 0, collapse_frames: 0 }
    }

    /// The active folder is not the one that the tree last unfolded to.
    pub open spec fn moved_to(self, active: Seq<char>) -> bool {
        match self.shown {
            Some(s) => !path::same_path(s@, active),
            None => true,
        }
    }

    /// Opens a frame in which `active` is the active folder. Returns whether
    /// the tree has to unfold to it.
    pub fn begin_frame(&mut self, active: &str) -> (r: bool)
        ensures
            r == old(self).moved_to(active@),
            r ==> (final(self).shown matches Some(s) && s@ == active@),
            r ==> final(self).scroll_frames == SETTLE_FRAMES && final(self).collapse_frames
                == SETTLE_FRAMES,
            !r ==> *final(self) == *old(self),
    {
        let moved: bool = match &self.shown {
            Some(s) => !is_same_path(s.as_str(), active),
            None => true,
        };
        if moved {
            self.shown = Some(active.to_owned());
            self.scroll_frames = SETTLE_FRAMES;
            self.collapse_frames = SETTLE_FRAMES;
        }
        moved
    }

    /// How the folder `dir` is drawn in this frame. While the window after a
    /// navigation is open, every branch that isn't on the active path is
    /// folded. Windows paths are case-insensitive, so letter case is ignored.
    pub fn node(&self, dir: &str, active: &str, force_expand: bool) -> (r: TreeNode)
        ensures
            r.is_active == active_dir(dir@, active@),
            r.open == (if force_expand && on_active_path(dir@, active@) {
                Some(true)
            } else if self.collapse_frames > 0 && !on_active_path(dir@, active@) {
                Some(false)
            } else {
                None
            }),
            r.scroll == (active_dir(dir@, active@) && self.scroll_frames > 0),
    {
        let dir_low = to_lowercase(dir);
        let active_low = to_lowercase(active);
        let is_active: bool = is_same_path(dir_low.as_str(), active_low.as_str());
        let is_ancestor: bool = is_under(active_low.as_str(), dir_low.as_str());
        let open: Option<bool> = if force_expand && is_ancestor {
            Some(true)
        } else if self.collapse_frames > 0 && !is_ancestor {
            Some(false)
        } else {
            None
        };
        TreeNode { is_active, open, scroll: is_active && self.scroll_frames > 0 }
    }

    /// Closes a frame.
    pub fn end_frame(&mut self)
        ensures
            final(self).shown == old(self).shown,
            final(self).scroll_frames == (if old(self).scroll_frames > 0 {
                old(self).scroll_frames - 1
            } else {
                0
            }),
            final(self).collapse_frames == (if old(self).collapse_frames > 0 {
                old(self).collapse_frames - 1
            } else {
                0
            }),
    {
        if self.scroll_frames > 0 {
            self.scroll_frames = self.scroll_frames - 1;
        }
        if self.collapse_frames > 0 {
            self.collapse_frames = self.collapse_frames - 1;
        }
    }
}

/// What a folder of the tree is called: the given label, or its own name.
pub fn node_label(dir: &str, label: Option<&str>) -> (r: String)
    ensures
        r@ == (match label {
            Some(l) => l@,
            None => path::shown_name_of(dir@),
        }),
{
    match label {
        Some(l) => l.to_owned(),
        None => shown_name(dir),
    }
}

/// A list of what is kept names in order what it keeps.
proof fn lemma_kept_in_order<T>(s: Seq<T>, answers: Seq<bool>) -> (at: Seq<int>)
    requires
        answers.len() >= s.len(),
    ensures
        at.len() == kept(s, answers).len(),
        forall|k: int|
            0 <= k < at.len() ==> 0 <= #[trigger] at[k] < s.len() && answers[at[k]] && kept(
                s,
                answers,
            )[k] == s[at[k]],
        forall|k: int, l: int| 0 <= k < l < at.len() ==> #[trigger] at[k] < #[trigger] at[l],
    decreases s.len(),
{
    if s.len() == 0 {
        Seq::empty()
    } else {
        let front = lemma_kept_in_order(s.drop_last(), answers);
        let before = kept(s.drop_last(), answers);
        if answers[s.len() - 1] {
            let at = front.push(s.len() - 1);
            assert forall|k: int| 0 <= k < at.len() implies 0 <= #[trigger] at[k] < s.len()
                && answers[at[k]] && kept(s, answers)[k] == s[at[k]] by {
                if k < front.len() {
                    assert(at[k] == front[k]);
                    assert(kept(s, answers)[k] == before[k]);
                }
            }
            assert forall|k: int, l: int| 0 <= k < l < at.len() implies #[trigger] at[k]
                < #[trigger] at[l] by {
                assert(at[k] == front[k]);
                if l < front.len() {
                    assert(at[l] == front[l]);
                }
            }
            at
        } else {
            assert forall|k: int| 0 <= k < front.len() implies 0 <= #[trigger] front[k] < s.len()
                && answers[front[k]] && kept(s, answers)[k] == s[front[k]] by {
            }
            front
        }
    }
}

/// The drives are listed in the order of their letters. Each one listed is the
/// root of a letter from A to Z that is said to exist, and each one that is left
/// out is said not to.
pub proof fn law_drives_are_listed_by_letter<F: Fn(&String) -> bool>(
    on_disk: F,
    r: Vec<String>,
    i: int,
    j: int,
    letter: char,
)
    requires
        call_ensures(list_drives::<F>, (&on_disk,), r),
    ensures
        0 <= i < r@.len() ==> r@[i]@.len() == 3 && 'A' <= r@[i]@[0] <= 'Z' && r@[i]@[1] == ':'
            && r@[i]@[2] == '\\' && session::answered(on_disk, r@[i]@, true),
        0 <= i < j < r@.len() ==> r@[i]@[0] < r@[j]@[0],
        'A' <= letter <= 'Z' && !text::texts(r@).contains(seq![letter, ':', '\\'])
            ==> session::answered(on_disk, seq![letter, ':', '\\'], false),
{
    let roots = drive_roots();
    let answers = choose|answers: Seq<bool>| #[trigger]
        all_answered(on_disk, roots, answers) && text::texts(r@) == kept(roots, answers);
    let at = lemma_kept_in_order(roots, answers);
    assert(text::texts(r@).len() == r@.len());
    if 0 <= i < r@.len() {
        assert(text::texts(r@)[i] == r@[i]@);
        assert(r@[i]@ == roots[at[i]]);
        assert(roots[at[i]] == drive_root(at[i]));
    }
    if 0 <= j < r@.len() {
        assert(text::texts(r@)[j] == r@[j]@);
        assert(r@[j]@ == roots[at[j]]);
        assert(roots[at[j]] == drive_root(at[j]));
    }
    if 'A' <= letter <= 'Z' && !text::texts(r@).contains(seq![letter, ':', '\\']) {
        let n = letter as int - 'A' as int;
        assert(drive_root(n) =~= seq![letter, ':', '\\']);
        assert(roots[n] == drive_root(n));
        law_drive_is_listed_iff_it_exists(answers, n);
    }
}

/// A shell folder is shown exactly where it is said to be a folder, with its
/// label, and they keep their order.
pub proof fn law_shell_folders_exist<F: Fn(&String) -> bool>(
    resolved: Vec<SystemFolder>,
    is_dir: F,
    r: Vec<SystemFolder>,
    i: int,
)
    requires
        call_ensures(list_system_folders::<F>, (resolved, &is_dir), r),
    ensures
        0 <= i < r@.len() ==> resolved@.contains(r@[i]) && session::answered(
            is_dir,
            r@[i].path@,
            true,
        ),
        0 <= i < resolved@.len() && !r@.contains(resolved@[i]) ==> session::answered(
            is_dir,
            resolved@[i].path@,
            false,
        ),
{
    let paths = folder_paths(resolved@);
    let answers = choose|answers: Seq<bool>| #[trigger]
        all_answered(is_dir, paths, answers) && r@ == kept(resolved@, answers);
    let at = lemma_kept_in_order(resolved@, answers);
    if 0 <= i < r@.len() {
        assert(resolved@[at[i]] == r@[i]);
        assert(paths[at[i]] == r@[i].path@);
    }
    if 0 <= i < resolved@.len() && !r@.contains(resolved@[i]) {
        lemma_kept_members(resolved@, answers, resolved@[i]);
        assert(paths[i] == resolved@[i].path@);
    }
}

/// Every server among the names of network resources is listed, and nothing
/// else: a name that starts with two backslashes, or another spelling of its
/// path.
pub proof fn law_every_server_is_listed(names: Seq<Seq<char>>)
    ensures
        forall|s: Seq<char>| #[trigger]
            servers_among(names).contains(s) ==> names.contains(s) && s.len() >= 2 && s[0] == '\\'
                && s[1] == '\\',
        forall|i: int|
            0 <= i < names.len() && names[i].len() >= 2 && names[i][0] == '\\' && names[i][1]
                == '\\' ==> exists|k: int|
                0 <= k < servers_among(names).len() && path::same_path(
                    #[trigger] servers_among(names)[k],
                    #[trigger] names[i],
                ),
    decreases names.len(),
{
    reveal_strlit("\\\\");
    if names.len() > 0 {
        let front = names.drop_last();
        let before = servers_among(front);
        let all = servers_among(names);
        let n = names.last();
        law_every_server_is_listed(front);
        assert("\\\\"@ =~= seq!['\\', '\\']);
        assert(text::has_prefix(n, "\\\\"@) ==> n.subrange(0, 2)[0] == n[0] && n.subrange(0, 2)[1]
            == n[1]);
        assert(n.len() >= 2 && n[0] == '\\' && n[1] == '\\' ==> n.subrange(0, 2) =~= seq![
            '\\',
            '\\',
        ]);
        assert forall|s: Seq<char>| #[trigger] all.contains(s) implies names.contains(s) && s.len()
            >= 2 && s[0] == '\\' && s[1] == '\\' by {
            let k = choose|k: int| 0 <= k < all.len() && all[k] == s;
            if k < before.len() {
                assert(before[k] == s);
                assert(before.contains(s));
                let i = choose|i: int| 0 <= i < front.len() && front[i] == s;
                assert(names[i] == s);
            } else {
                assert(names[names.len() - 1] == s);
            }
        }
        assert forall|i: int|
            0 <= i < names.len() && names[i].len() >= 2 && names[i][0] == '\\' && names[i][1]
                == '\\' implies exists|k: int|
            0 <= k < all.len() && path::same_path(#[trigger] all[k], #[trigger] names[i]) by {
            if i < front.len() {
                assert(front[i] == names[i]);
                let k = choose|k: int|
                    0 <= k < before.len() && path::same_path(
                        #[trigger] before[k],
                        #[trigger] front[i],
                    );
                assert(all[k] == before[k]);
            } else if lists_path(before, n) {
                let k = choose|k: int|
                    0 <= k < before.len() && path::same_path(#[trigger] before[k], n);
                assert(all[k] == before[k]);
            } else {
                assert(all[before.len() as int] == n);
            }
        }
    }
}

/// While the tree unfolds to the active folder, every folder that holds it, and
/// that folder itself, is opened, whatever the letter case; until it has settled
/// every other one is closed. Only the active folder is marked and scrolled to.
pub proof fn law_the_tree_unfolds_to_the_active_folder(
    t: &TreeView,
    dir: &str,
    active: &str,
    force: bool,
    r: TreeNode,
)
    requires
        call_ensures(TreeView::node, (t, dir, active, force), r),
    ensures
        ({
            let holds = path::under(text::lowercase(active@), text::lowercase(dir@));
            let same = path::same_path(text::lowercase(dir@), text::lowercase(active@));
            &&& r.is_active <==> same
            &&& force && holds ==> r.open == Some(true)
            &&& !holds && t.collapse_frames > 0 ==> r.open == Some(false)
            &&& !force && holds ==> r.open is None
            &&& !holds && t.collapse_frames == 0 ==> r.open is None
            &&& r.scroll <==> same && t.scroll_frames > 0
        }),
{
}

/// The share that the active folder lies on is among the network roots, whatever
/// its letter case, and every server stays.
pub proof fn law_the_active_share_is_a_root(servers: &Vec<String>, active: &str, r: Vec<String>)
    requires
        call_ensures(network_roots, (servers, active), r),
    ensures
        text::texts(servers@).is_prefix_of(text::texts(r@)),
        r@.len() <= servers@.len() + 1,
        path::unc_root_of(active@) is None ==> text::texts(r@) == text::texts(servers@),
        path::unc_root_of(active@) is Some ==> exists|i: int|
            0 <= i < text::texts(r@).len() && text::lowercase(#[trigger] text::texts(r@)[i])
                == text::lowercase(path::unc_root_of(active@)->0),
{
    let all = text::texts(r@);
    let old_roots = text::texts(servers@);
    assert(all.len() == r@.len());
    if path::unc_root_of(active@) is Some {
        let root = path::unc_root_of(active@)->0;
        if exists|i: int|
            0 <= i < old_roots.len() && text::lowercase(#[trigger] old_roots[i]) == text::lowercase(
                root,
            ) {
        } else {
            assert(all[old_roots.len() as int] == root);
        }
    }
}

} // verus!
