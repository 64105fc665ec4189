//! Windows paths as text: prefixes, components, parents, names and extensions.
//!
//! Both `\` and `/` separate components, except behind the verbatim prefix
//! `\\?\`, where only `\` does. What counts as a root, which paths are the same
//! and how paths are joined follows the rules that Rust's `Path` has on Windows.

use crate::text;
use crate::text::{chars_of, join as join_texts, string_of, str_eq};
use vstd::prelude::*;

verus! {

/// The ways in which a path can name its volume.
#[derive(Debug, Clone, Copy, PartialEq, Eq, Structural)]
pub enum PrefixKind {
    /// No prefix.
    Absent,
    /// `C:`
    Disk,
    /// `\\server\share`
    Unc,
    /// `\\.\device`
    Device,
    /// `\\?\UNC\server\share`
    VerbatimUnc,
    /// `\\?\C:`
    VerbatimDisk,
    /// `\\?\name`
    Verbatim,
}

/// `c` separates components.
pub open spec fn separator(c: char, verbatim: bool) -> bool {
    c == '\\' || (c == '/' && !verbatim)
}

/// `c` is a letter that can name a drive.
pub open spec fn drive_letter(c: char) -> bool {
    'a' <= c <= 'z' || 'A' <= c <= 'Z'
}

/// Place `i` of `p` holds a separator.
pub open spec fn sep_at(p: Seq<char>, i: int, verbatim: bool) -> bool {
    0 <= i < p.len() && separator(p[i], verbatim)
}

/// The first place at or after `i` with a separator, or the end of `p`.
pub open spec fn component_end(p: Seq<char>, i: int, verbatim: bool) -> int
    decreases p.len() - i,
{
    if i >= p.len() || i < 0 {
        p.len() as int
    } else if separator(p[i], verbatim) {
        i
    } else {
        component_end(p, i + 1, verbatim)
    }
}

/// The place after the last separator of `p[lo..hi]`, or `lo`.
pub open spec fn component_start(p: Seq<char>, lo: int, hi: int, verbatim: bool) -> int
    decreases hi - lo,
{
    if hi <= lo {
        lo
    } else if sep_at(p, hi - 1, verbatim) {
        hi
    } else {
        component_start(p, lo, hi - 1, verbatim)
    }
}

/// How `p` names its volume.
pub open spec fn prefix_kind(p: Seq<char>) -> PrefixKind {
    if p.len() >= 4 && p[0] == '\\' && p[1] == '\\' && p[2] == '?' && p[3] == '\\' {
        if p.len() >= 8 && p[4] == 'U' && p[5] == 'N' && p[6] == 'C' && sep_at(p, 7, false) {
            PrefixKind::VerbatimUnc
        } else if p.len() >= 6 && drive_letter(p[4]) && p[5] == ':' && (p.len() == 6 || sep_at(
            p,
            6,
            false,
        )) {
            PrefixKind::VerbatimDisk
        } else {
            PrefixKind::Verbatim
        }
    } else if sep_at(p, 0, false) && sep_at(p, 1, false) {
        let e = component_end(p, 2, false);
        if p.len() >= 4 && p[2] == '.' && sep_at(p, 3, false) {
            PrefixKind::Device
        } else if e > 2 && component_end(p, e + 1, false) > e + 1 {
            PrefixKind::Unc
        } else {
            PrefixKind::Absent
        }
    } else if p.len() >= 2 && drive_letter(p[0]) && p[1] == ':' {
        PrefixKind::Disk
    } else {
        PrefixKind::Absent
    }
}

/// Only `\` separates components.
pub open spec fn is_verbatim(kind: PrefixKind) -> bool {
    kind is VerbatimUnc || kind is VerbatimDisk || kind is Verbatim
}

/// The length of the prefix of `p`.
pub open spec fn prefix_len(p: Seq<char>) -> int {
    match prefix_kind(p) {
        PrefixKind::Absent => 0,
        PrefixKind::Disk => 2,
        PrefixKind::Unc => component_end(p, component_end(p, 2, false) + 1, false),
        PrefixKind::Device => component_end(p, 4, false),
        PrefixKind::VerbatimUnc => {
            let e = component_end(p, 8, true);
            let f = component_end(p, e + 1, true);
            if f > e + 1 {
                f
            } else {
                e
            }
        },
        PrefixKind::VerbatimDisk => 6,
        PrefixKind::Verbatim => component_end(p, 4, true),
    }
}

/// A separator follows the prefix of `p`, where `/` counts as one even behind a
/// verbatim prefix.
pub open spec fn has_physical_root(p: Seq<char>) -> bool {
    sep_at(p, prefix_len(p), false)
}

/// `p` starts at the root of its volume.
pub open spec fn has_root(p: Seq<char>) -> bool {
    has_physical_root(p) || !(prefix_kind(p) is Absent || prefix_kind(p) is Disk)
}

/// `p` has no root and its first component is `.`.
pub open spec fn leading_dot(p: Seq<char>) -> bool {
    let n = prefix_len(p);
    !has_root(p) && n < p.len() && p[n] == '.' && (n + 1 == p.len() || sep_at(
        p,
        n + 1,
        is_verbatim(prefix_kind(p)),
    ))
}

/// Where the components behind prefix, root and leading `.` begin.
pub open spec fn body_start(p: Seq<char>) -> int {
    prefix_len(p) + if has_physical_root(p) || leading_dot(p) {
        1int
    } else {
        0
    }
}

/// `p` begins with the component `.`, which counts where no volume is named.
pub open spec fn here_part(p: Seq<char>) -> bool {
    leading_dot(p) && prefix_kind(p) is Absent
}

/// The root of the volume is a component of `p`. Behind a verbatim prefix it is
/// one only where it is written.
pub open spec fn root_part(p: Seq<char>) -> bool {
    has_physical_root(p) || prefix_kind(p) is Unc || prefix_kind(p) is Device
}

/// The text of a component that stands for nothing.
pub open spec fn empty_component(s: Seq<char>, verbatim: bool) -> bool {
    s.len() == 0 || (s == seq!['.'] && !verbatim)
}

/// Where the last component of `p[lo..hi]` ends, leaving out separators and
/// `.` behind it; `lo` where there is none.
pub open spec fn body_end(p: Seq<char>, lo: int, hi: int, verbatim: bool) -> int
    decreases hi - lo,
{
    if hi <= lo {
        lo
    } else {
        let k = component_start(p, lo, hi, verbatim);
        if lo <= k <= hi && empty_component(p.subrange(k, hi), verbatim) {
            if k > lo {
                body_end(p, lo, k - 1, verbatim)
            } else {
                lo
            }
        } else {
            hi
        }
    }
}

/// The components of `p[lo..hi]`.
pub open spec fn body_parts(p: Seq<char>, lo: int, hi: int, verbatim: bool) -> Seq<Seq<char>>
    decreases hi - lo,
{
    let e = body_end(p, lo, hi, verbatim);
    if e <= lo || e > hi {
        Seq::<Seq<char>>::empty()
    } else {
        let k = component_start(p, lo, e, verbatim);
        let rest = if lo < k <= e {
            body_parts(p, lo, k - 1, verbatim)
        } else {
            Seq::<Seq<char>>::empty()
        };
        rest.push(p.subrange(k, e))
    }
}

/// The place where the last component of `p` ends.
pub open spec fn last_end(p: Seq<char>) -> int {
    body_end(p, body_start(p), p.len() as int, is_verbatim(prefix_kind(p)))
}

/// The place where the last component of `p` begins.
pub open spec fn last_start(p: Seq<char>) -> int {
    component_start(p, body_start(p), last_end(p), is_verbatim(prefix_kind(p)))
}

/// A component that names a file or folder, not the folder itself or the one
/// above it.
pub open spec fn names_item(c: Seq<char>) -> bool {
    c != seq!['.'] && c != seq!['.', '.']
}

/// The last component of `p`, where it names a file or folder.
pub open spec fn file_name_of(p: Seq<char>) -> Option<Seq<char>> {
    if last_end(p) > body_start(p) && names_item(p.subrange(last_start(p), last_end(p))) {
        Some(p.subrange(last_start(p), last_end(p)))
    } else {
        None
    }
}

/// `p` without its last component; nothing where `p` is empty, a root or a
/// prefix.
pub open spec fn parent_of(p: Seq<char>) -> Option<Seq<char>> {
    let lo = body_start(p);
    if last_end(p) > lo {
        let k = last_start(p);
        let end = if k > lo {
            body_end(p, lo, k - 1, is_verbatim(prefix_kind(p)))
        } else {
            lo
        };
        Some(p.subrange(0, end))
    } else if here_part(p) {
        Some(Seq::empty())
    } else {
        None
    }
}

/// The last place of `c` in `s`, or -1.
pub open spec fn last_index_of(s: Seq<char>, c: char) -> int
    decreases s.len(),
{
    if s.len() == 0 {
        -1
    } else if s.last() == c {
        s.len() - 1
    } else {
        last_index_of(s.drop_last(), c)
    }
}

/// What follows the last dot of a file name that does not start with it.
pub open spec fn extension_of(p: Seq<char>) -> Option<Seq<char>> {
    match file_name_of(p) {
        Some(n) => if last_index_of(n, '.') > 0 {
            Some(n.subrange(last_index_of(n, '.') + 1, n.len() as int))
        } else {
            None
        },
        None => None,
    }
}

/// The file name without its extension.
pub open spec fn file_stem_of(p: Seq<char>) -> Option<Seq<char>> {
    match file_name_of(p) {
        Some(n) => if last_index_of(n, '.') > 0 {
            Some(n.subrange(0, last_index_of(n, '.')))
        } else {
            Some(n)
        },
        None => None,
    }
}

/// The components `stack` with `more` behind them, where `..` takes back a name.
pub open spec fn descended(stack: Seq<Seq<char>>, more: Seq<Seq<char>>) -> Seq<Seq<char>>
    decreases more.len(),
{
    if more.len() == 0 {
        stack
    } else {
        let before = descended(stack, more.drop_last());
        if more.last() != seq!['.', '.'] {
            before.push(more.last())
        } else if before.len() > 0 && names_item(before.last()) {
            before.drop_last()
        } else {
            before
        }
    }
}

/// `name` taken as a path that starts in the verbatim path `base`. The path is
/// put together anew from its components, since `.` and `..` mean nothing in
/// it.
pub open spec fn verbatim_joined(base: Seq<char>, name: Seq<char>) -> Seq<char> {
    let own = if has_root(name) {
        Seq::<Seq<char>>::empty()
    } else {
        body_parts(base, body_start(base), base.len() as int, true)
    };
    let all = descended(own, body_parts(name, body_start(name), name.len() as int, false));
    let volume = base.subrange(0, prefix_len(base));
    if has_root(name) || has_physical_root(base) || all.len() > 0 {
        volume.push('\\') + text::joined(all, seq!['\\'])
    } else {
        volume
    }
}

/// `name` taken as a path that starts in `base`.
pub open spec fn joined_path(base: Seq<char>, name: Seq<char>) -> Seq<char> {
    if !(prefix_kind(name) is Absent) || base.len() == 0 {
        name
    } else if is_verbatim(prefix_kind(base)) && name.len() > 0 {
        verbatim_joined(base, name)
    } else if has_root(name) {
        base.subrange(0, prefix_len(base)) + name
    } else if separator(base.last(), false) || (prefix_kind(base) is Disk && base.len() == 2) {
        base + name
    } else {
        base.push('\\') + name
    }
}

/// The volume that `p` names: how it is named, and the names or the upper-case
/// drive letter in it.
pub open spec fn volume_of(p: Seq<char>) -> (PrefixKind, Seq<char>, Seq<char>) {
    let kind = prefix_kind(p);
    let nothing = Seq::<char>::empty();
    match kind {
        PrefixKind::Absent => (kind, nothing, nothing),
        PrefixKind::Disk => (kind, seq![upper(p[0])], nothing),
        PrefixKind::VerbatimDisk => (kind, seq![upper(p[4])], nothing),
        PrefixKind::Device => (kind, p.subrange(4, prefix_len(p)), nothing),
        PrefixKind::Verbatim => (kind, p.subrange(4, prefix_len(p)), nothing),
        PrefixKind::Unc => {
            let e = component_end(p, 2, false);
            (kind, p.subrange(2, e), p.subrange(e + 1, prefix_len(p)))
        },
        PrefixKind::VerbatimUnc => {
            let e = component_end(p, 8, true);
            (
                kind,
                p.subrange(8, e),
                if prefix_len(p) > e {
                    p.subrange(e + 1, prefix_len(p))
                } else {
                    nothing
                },
            )
        },
    }
}

/// The upper-case form of an ASCII letter.
pub open spec fn upper(c: char) -> char {
    if 'a' <= c <= 'z' {
        (c as int - 'a' as int + 'A' as int) as char
    } else {
        c
    }
}

/// What two equal paths have in common: the volume, whether the root and a
/// leading `.` are among the components, and the components behind them.
pub open spec fn components_of(p: Seq<char>) -> (
    (PrefixKind, Seq<char>, Seq<char>),
    bool,
    bool,
    Seq<Seq<char>>,
) {
    (
        volume_of(p),
        root_part(p),
        here_part(p),
        body_parts(p, body_start(p), p.len() as int, is_verbatim(prefix_kind(p))),
    )
}

/// `a` and `b` are the same path.
pub open spec fn same_path(a: Seq<char>, b: Seq<char>) -> bool {
    components_of(a) == components_of(b)
}

/// `p` is `base` or lies under it.
pub open spec fn under(p: Seq<char>, base: Seq<char>) -> bool {
    let (ap, ar, ad, ab) = components_of(p);
    let (bp, br, bd, bb) = components_of(base);
    if ap != bp {
        bp.0 is Absent && !br && !bd && bb.len() == 0
    } else if (br && !ar) || (bd && !ad) {
        false
    } else if br == ar && bd == ad {
        bb.len() <= ab.len() && ab.subrange(0, bb.len() as int) == bb
    } else {
        bb.len() == 0
    }
}

// ---------------------------------------------------------------------------
// Bounds of the places
// ---------------------------------------------------------------------------

pub(crate) proof fn lemma_component_end(p: Seq<char>, i: int, verbatim: bool)
    requires
        0 <= i,
    ensures
        component_end(p, i, verbatim) <= p.len(),
        i <= p.len() ==> i <= component_end(p, i, verbatim),
        i > p.len() ==> component_end(p, i, verbatim) == p.len(),
    decreases p.len() - i,
{
    if i < p.len() && !separator(p[i], verbatim) {
        lemma_component_end(p, i + 1, verbatim);
    }
}

pub(crate) proof fn lemma_component_start(p: Seq<char>, lo: int, hi: int, verbatim: bool)
    requires
        lo <= hi,
    ensures
        lo <= component_start(p, lo, hi, verbatim) <= hi,
        component_start(p, lo, hi, verbatim) > lo ==> sep_at(
            p,
            component_start(p, lo, hi, verbatim) - 1,
            verbatim,
        ),
        forall|i: int|
            component_start(p, lo, hi, verbatim) <= i < hi ==> !#[trigger] sep_at(p, i, verbatim),
    decreases hi - lo,
{
    if lo < hi && !sep_at(p, hi - 1, verbatim) {
        lemma_component_start(p, lo, hi - 1, verbatim);
    }
}

pub(crate) proof fn lemma_body_end(p: Seq<char>, lo: int, hi: int, verbatim: bool)
    requires
        lo <= hi,
    ensures
        lo <= body_end(p, lo, hi, verbatim) <= hi,
    decreases hi - lo,
{
    if lo < hi {
        lemma_component_start(p, lo, hi, verbatim);
        let k = component_start(p, lo, hi, verbatim);
        if k > lo && empty_component(p.subrange(k, hi), verbatim) {
            lemma_body_end(p, lo, k - 1, verbatim);
        }
    }
}

/// Prefix and body lie inside the path.
pub proof fn lemma_bounds(p: Seq<char>)
    ensures
        0 <= prefix_len(p) <= body_start(p) <= p.len(),
        body_start(p) <= last_end(p) <= p.len(),
        body_start(p) <= last_start(p) <= last_end(p),
{
    lemma_component_end(p, 2, false);
    lemma_component_end(p, component_end(p, 2, false) + 1, false);
    lemma_component_end(p, 4, false);
    lemma_component_end(p, 4, true);
    lemma_component_end(p, 8, true);
    lemma_component_end(p, component_end(p, 8, true) + 1, true);
    lemma_body_end(p, body_start(p), p.len() as int, is_verbatim(prefix_kind(p)));
    lemma_component_start(p, body_start(p), last_end(p), is_verbatim(prefix_kind(p)));
}

// ---------------------------------------------------------------------------
// Executable functions
// ---------------------------------------------------------------------------

/// Where the parts of a path lie.
struct Layout {
    kind: PrefixKind,
    prefix: usize,
    root: bool,
    physical_root: bool,
    dot: bool,
    body: usize,
}

impl Layout {
    spec fn describes(self, p: Seq<char>) -> bool {
        &&& self.kind == prefix_kind(p)
        &&& self.prefix == prefix_len(p)
        &&& self.root == has_root(p)
        &&& self.physical_root == has_physical_root(p)
        &&& self.dot == leading_dot(p)
        &&& self.body == body_start(p)
        &&& self.prefix <= self.body <= p.len()
    }

    fn verbatim(&self) -> (r: bool)
        ensures
            r == is_verbatim(self.kind),
    {
        match self.kind {
            PrefixKind::VerbatimUnc | PrefixKind::VerbatimDisk | PrefixKind::Verbatim => true,
            _ => false,
        }
    }

    fn here(&self) -> (r: bool)
        ensures
            r == (self.dot && self.kind is Absent),
    {
        self.dot && self.kind == PrefixKind::Absent
    }

    fn shows_root(&self) -> (r: bool)
        ensures
            r == (self.physical_root || self.kind is Unc || self.kind is Device),
    {
        self.physical_root || self.kind == PrefixKind::Unc || self.kind == PrefixKind::Device
    }
}

fn is_separator(c: char, verbatim: bool) -> (r: bool)
    ensures
        r == separator(c, verbatim),
{
    c == '\\' || (c == '/' && !verbatim)
}

fn is_sep_at(cs: &Vec<char>, i: usize, verbatim: bool) -> (r: bool)
    ensures
        r == sep_at(cs@, i as int, verbatim),
{
    i < cs.len() && is_separator(cs[i], verbatim)
}

fn is_drive_letter(c: char) -> (r: bool)
    ensures
        r == drive_letter(c),
{
    ('a' <= c && c <= 'z') || ('A' <= c && c <= 'Z')
}

fn find_component_end(cs: &Vec<char>, from: usize, verbatim: bool) -> (r: usize)
    ensures
        r == component_end(cs@, from as int, verbatim),
        r <= cs@.len(),
        from <= cs@.len() ==> from <= r,
{
    if from >= cs.len() {
        return cs.len();
    }
    let mut i: usize = from;
    while i < cs.len() && !is_separator(cs[i], verbatim)
        invariant
            from <= i <= cs@.len(),
            component_end(cs@, from as int, verbatim) == component_end(cs@, i as int, verbatim),
        decreases cs@.len() - i,
    {
        i = i + 1;
    }
    i
}

fn find_component_start(cs: &Vec<char>, lo: usize, hi: usize, verbatim: bool) -> (r: usize)
    requires
        lo <= hi <= cs@.len(),
    ensures
        r == component_start(cs@, lo as int, hi as int, verbatim),
        lo <= r <= hi,
{
    let mut i: usize = hi;
    while i > lo && !is_separator(cs[i - 1], verbatim)
        invariant
            lo <= i <= hi <= cs@.len(),
            component_start(cs@, lo as int, hi as int, verbatim) == component_start(
                cs@,
                lo as int,
                i as int,
                verbatim,
            ),
        decreases i,
    {
        i = i - 1;
    }
    i
}

fn find_body_end(cs: &Vec<char>, lo: usize, hi: usize, verbatim: bool) -> (r: usize)
    requires
        lo <= hi <= cs@.len(),
    ensures
        r == body_end(cs@, lo as int, hi as int, verbatim),
        lo <= r <= hi,
{
    let mut e: usize = hi;
    while e > lo
        invariant
            lo <= e <= hi <= cs@.len(),
            body_end(cs@, lo as int, hi as int, verbatim) == body_end(
                cs@,
                lo as int,
                e as int,
                verbatim,
            ),
        decreases e,
    {
        let k: usize = find_component_start(cs, lo, e, verbatim);
        let ghost comp = cs@.subrange(k as int, e as int);
        let nothing = k == e || (e - k == 1 && cs[k] == '.' && !verbatim);
        proof {
            if e - k == 1 && cs@[k as int] == '.' {
                assert(comp =~= seq!['.']);
            }
            if comp == seq!['.'] {
                assert(comp.len() == 1 && comp[0] == '.');
            }
            assert(nothing == empty_component(comp, verbatim));
        }
        if !nothing {
            return e;
        }
        if k > lo {
            e = k - 1;
        } else {
            e = lo;
        }
    }
    lo
}

fn layout(cs: &Vec<char>) -> (r: Layout)
    ensures
        r.describes(cs@),
{
    let n: usize = cs.len();
    let slash0 = is_sep_at(cs, 0, false);
    let slash1 = is_sep_at(cs, 1, false);
    let mut kind = PrefixKind::Absent;
    let mut prefix: usize = 0;
    if n >= 4 && cs[0] == '\\' && cs[1] == '\\' && cs[2] == '?' && cs[3] == '\\' {
        if n >= 8 && cs[4] == 'U' && cs[5] == 'N' && cs[6] == 'C' && is_sep_at(cs, 7, false) {
            kind = PrefixKind::VerbatimUnc;
            let e: usize = find_component_end(cs, 8, true);
            prefix = e;
            if e < n {
                let f: usize = find_component_end(cs, e + 1, true);
                if f > e + 1 {
                    prefix = f;
                }
            }
        } else if n >= 6 && is_drive_letter(cs[4]) && cs[5] == ':' && (n == 6 || is_sep_at(
            cs,
            6,
            false,
        )) {
            kind = PrefixKind::VerbatimDisk;
            prefix = 6;
        } else {
            kind = PrefixKind::Verbatim;
            prefix = find_component_end(cs, 4, true);
        }
    } else if slash0 && slash1 {
        if n >= 4 && cs[2] == '.' && is_sep_at(cs, 3, false) {
            kind = PrefixKind::Device;
            prefix = find_component_end(cs, 4, false);
        } else {
            let e: usize = find_component_end(cs, 2, false);
            if e > 2 && e < n {
                let f: usize = find_component_end(cs, e + 1, false);
                if f > e + 1 {
                    kind = PrefixKind::Unc;
                    prefix = f;
                }
            }
        }
    } else if n >= 2 && is_drive_letter(cs[0]) && cs[1] == ':' {
        kind = PrefixKind::Disk;
        prefix = 2;
    }
    proof {
        lemma_bounds(cs@);
    }
    let verbatim = match kind {
        PrefixKind::VerbatimUnc | PrefixKind::VerbatimDisk | PrefixKind::Verbatim => true,
        _ => false,
    };
    let physical_root = is_sep_at(cs, prefix, false);
    let root = physical_root || match kind {
        PrefixKind::Absent | PrefixKind::Disk => false,
        _ => true,
    };
    let dot = !root && prefix < n && cs[prefix] == '.' && (prefix + 1 == n || is_sep_at(
        cs,
        prefix + 1,
        verbatim,
    ));
    let body: usize = if physical_root || dot {
        prefix + 1
    } else {
        prefix
    };
    Layout { kind, prefix, root, physical_root, dot, body }
}

/// The last component of `p`, where it names a file or folder.
pub fn file_name(p: &str) -> (r: Option<String>)
    ensures
        match r {
            Some(n) => file_name_of(p@) == Some(n@),
            None => file_name_of(p@) is None,
        },
{
    let cs: Vec<char> = chars_of(p);
    let at = layout(&cs);
    let v = at.verbatim();
    let e: usize = find_body_end(&cs, at.body, cs.len(), v);
    if e <= at.body {
        return None;
    }
    let k: usize = find_component_start(&cs, at.body, e, v);
    let ghost comp = p@.subrange(k as int, e as int);
    if e - k == 1 && cs[k] == '.' {
        assert(comp =~= seq!['.']);
        return None;
    }
    if e - k == 2 && cs[k] == '.' && cs[k + 1] == '.' {
        assert(comp =~= seq!['.', '.']);
        return None;
    }
    proof {
        if comp == seq!['.'] {
            assert(comp.len() == 1 && comp[0] == '.');
        }
        if comp == seq!['.', '.'] {
            assert(comp.len() == 2 && comp[0] == '.' && comp[1] == '.');
        }
    }
    Some(string_of(&cs, k, e))
}

/// `p` without its last component.
pub fn parent(p: &str) -> (r: Option<String>)
    ensures
        match r {
            Some(n) => parent_of(p@) == Some(n@),
            None => parent_of(p@) is None,
        },
{
    let cs: Vec<char> = chars_of(p);
    let at = layout(&cs);
    let v = at.verbatim();
    let e: usize = find_body_end(&cs, at.body, cs.len(), v);
    if e > at.body {
        let k: usize = find_component_start(&cs, at.body, e, v);
        let end: usize = if k > at.body {
            find_body_end(&cs, at.body, k - 1, v)
        } else {
            at.body
        };
        Some(string_of(&cs, 0, end))
    } else if at.here() {
        Some(String::new())
    } else {
        None
    }
}

/// The last place of `c` in `cs`.
pub fn rposition(cs: &Vec<char>, c: char) -> (r: Option<usize>)
    ensures
        match r {
            Some(i) => i == last_index_of(cs@, c) && i < cs.len(),
            None => last_index_of(cs@, c) == -1,
        },
{
    let mut i: usize = cs.len();
    assert(cs@.subrange(0, i as int) =~= cs@);
    while i > 0
        invariant
            i <= cs@.len(),
            last_index_of(cs@, c) == last_index_of(cs@.subrange(0, i as int), c),
        decreases i,
    {
        assert(cs@.subrange(0, i as int).drop_last() =~= cs@.subrange(0, i - 1));
        if cs[i - 1] == c {
            return Some(i - 1);
        }
        i = i - 1;
    }
    None
}

/// What follows the last dot of the file name.
pub fn extension(p: &str) -> (r: Option<String>)
    ensures
        match r {
            Some(n) => extension_of(p@) == Some(n@),
            None => extension_of(p@) is None,
        },
{
    match file_name(p) {
        None => None,
        Some(name) => {
            let cs: Vec<char> = chars_of(name.as_str());
            match rposition(&cs, '.') {
                Some(i) => if i > 0 {
                    Some(string_of(&cs, i + 1, cs.len()))
                } else {
                    None
                },
                None => None,
            }
        },
    }
}

/// The file name without its extension.
pub fn file_stem(p: &str) -> (r: Option<String>)
    ensures
        match r {
            Some(n) => file_stem_of(p@) == Some(n@),
            None => file_stem_of(p@) is None,
        },
{
    match file_name(p) {
        None => None,
        Some(name) => {
            let cs: Vec<char> = chars_of(name.as_str());
            match rposition(&cs, '.') {
                Some(i) => if i > 0 {
                    Some(string_of(&cs, 0, i))
                } else {
                    Some(name)
                },
                None => Some(name),
            }
        },
    }
}

/// The components `stack` with `more` behind them, where `..` takes back a name.
fn descend(stack: Vec<String>, more: &Vec<String>) -> (r: Vec<String>)
    ensures
        text::texts(r@) == descended(text::texts(stack@), text::texts(more@)),
{
    let mut out = stack;
    let ghost all = text::texts(more@);
    let mut i: usize = 0;
    while i < more.len()
        invariant
            i <= more@.len(),
            all == text::texts(more@),
            text::texts(out@) == descended(text::texts(stack@), all.subrange(0, i as int)),
        decreases more@.len() - i,
    {
        let ghost before = text::texts(out@);
        let ghost c = more@[i as int]@;
        proof {
            assert(all.subrange(0, i + 1).drop_last() =~= all.subrange(0, i as int));
            assert(all.subrange(0, i + 1).last() == c);
            reveal_strlit("..");
            reveal_strlit(".");
            assert(".."@ =~= seq!['.', '.']);
            assert("."@ =~= seq!['.']);
        }
        if !str_eq(more[i].as_str(), "..") {
            out.push(more[i].clone());
            assert(text::texts(out@) =~= before.push(c));
        } else if out.len() > 0 && !str_eq(out[out.len() - 1].as_str(), "..") && !str_eq(
            out[out.len() - 1].as_str(),
            ".",
        ) {
            let _ = out.pop();
            assert(text::texts(out@) =~= before.drop_last());
        }
        i = i + 1;
    }
    assert(all.subrange(0, i as int) =~= all);
    out
}

/// `name` taken as a path that starts in `base`.
pub fn join(base: &str, name: &str) -> (r: String)
    ensures
        r@ == joined_path(base@, name@),
{
    let b: Vec<char> = chars_of(base);
    let n: Vec<char> = chars_of(name);
    let lb = layout(&b);
    let ln = layout(&n);
    if ln.kind != PrefixKind::Absent || b.len() == 0 {
        return name.to_owned();
    }
    if lb.verbatim() && n.len() > 0 {
        let own: Vec<String> = if ln.root {
            Vec::new()
        } else {
            parts(&b, lb.body, b.len(), true)
        };
        assert(ln.root ==> text::texts(own@) =~= Seq::<Seq<char>>::empty());
        let more: Vec<String> = parts(&n, ln.body, n.len(), false);
        let all = descend(own, &more);
        assert(text::texts(all@).len() == all@.len());
        let mut out = string_of(&b, 0, lb.prefix);
        if ln.root || lb.physical_root || all.len() > 0 {
            proof {
                reveal_strlit("\\");
                assert("\\"@ =~= seq!['\\']);
            }
            out.push('\\');
            out.append(join_texts(&all, "\\").as_str());
        }
        return out;
    }
    if ln.root {
        let mut out = string_of(&b, 0, lb.prefix);
        out.append(name);
        return out;
    }
    let mut out = base.to_owned();
    if !(is_separator(b[b.len() - 1], false) || (lb.kind == PrefixKind::Disk && b.len() == 2)) {
        out.push('\\');
    }
    out.append(name);
    out
}

/// The upper-case form of an ASCII letter.
fn to_upper(c: char) -> (r: char)
    ensures
        r == upper(c),
{
    if 'a' <= c && c <= 'z' {
        (c as u8 - 32) as char
    } else {
        c
    }
}

/// The names in the prefix of a path, or its upper-case drive letter.
fn volume_names(cs: &Vec<char>, at: &Layout) -> (r: (String, String))
    requires
        at.describes(cs@),
    ensures
        volume_of(cs@) == (at.kind, r.0@, r.1@),
{
    let mut first = String::new();
    let mut second = String::new();
    proof {
        lemma_bounds(cs@);
        lemma_component_end(cs@, 2, false);
        lemma_component_end(cs@, 8, true);
        lemma_component_end(cs@, component_end(cs@, 2, false) + 1, false);
        lemma_component_end(cs@, component_end(cs@, 8, true) + 1, true);
        lemma_component_end(cs@, 4, false);
        lemma_component_end(cs@, 4, true);
    }
    match at.kind {
        PrefixKind::Absent => {},
        PrefixKind::Disk => {
            first.push(to_upper(cs[0]));
            assert(first@ =~= seq![upper(cs@[0])]);
        },
        PrefixKind::VerbatimDisk => {
            first.push(to_upper(cs[4]));
            assert(first@ =~= seq![upper(cs@[4])]);
        },
        PrefixKind::Device | PrefixKind::Verbatim => {
            first = string_of(cs, 4, at.prefix);
        },
        PrefixKind::Unc => {
            let e: usize = find_component_end(cs, 2, false);
            first = string_of(cs, 2, e);
            second = string_of(cs, e + 1, at.prefix);
        },
        PrefixKind::VerbatimUnc => {
            let e: usize = find_component_end(cs, 8, true);
            first = string_of(cs, 8, e);
            if at.prefix > e {
                second = string_of(cs, e + 1, at.prefix);
            }
        },
    }
    (first, second)
}

/// The components of `cs[lo..hi]`.
fn parts(cs: &Vec<char>, lo: usize, hi: usize, verbatim: bool) -> (r: Vec<String>)
    requires
        lo <= hi <= cs@.len(),
    ensures
        text::texts(r@) == body_parts(cs@, lo as int, hi as int, verbatim),
    decreases hi,
{
    let e: usize = find_body_end(cs, lo, hi, verbatim);
    if e <= lo {
        let out: Vec<String> = Vec::new();
        assert(text::texts(out@) =~= Seq::<Seq<char>>::empty());
        return out;
    }
    let k: usize = find_component_start(cs, lo, e, verbatim);
    let mut out: Vec<String> = if k > lo {
        parts(cs, lo, k - 1, verbatim)
    } else {
        Vec::new()
    };
    let last = string_of(cs, k, e);
    let ghost before = text::texts(out@);
    out.push(last);
    proof {
        if k <= lo {
            assert(before =~= Seq::<Seq<char>>::empty());
        }
        assert(text::texts(out@) =~= before.push(last@));
    }
    out
}

/// Whether the first `n` strings of `a` and `b` are the same.
fn same_start(a: &Vec<String>, b: &Vec<String>, n: usize) -> (r: bool)
    requires
        n <= a@.len(),
        n <= b@.len(),
    ensures
        r == (text::texts(a@).subrange(0, n as int) == text::texts(b@).subrange(
            0,
            n as int,
        )),
{
    let mut i: usize = 0;
    while i < n
        invariant
            i <= n <= a@.len(),
            n <= b@.len(),
            forall|j: int| 0 <= j < i ==> (#[trigger] a@[j])@ == b@[j]@,
        decreases n - i,
    {
        if !str_eq(a[i].as_str(), b[i].as_str()) {
            assert(text::texts(a@).subrange(0, n as int)[i as int] != text::texts(
                b@,
            ).subrange(0, n as int)[i as int]);
            return false;
        }
        i = i + 1;
    }
    assert(text::texts(a@).subrange(0, n as int) =~= text::texts(b@).subrange(
        0,
        n as int,
    ));
    true
}

/// Whether two paths name the same volume.
fn same_volume(la: &Layout, a: &(String, String), lb: &Layout, b: &(String, String)) -> (r: bool)
    ensures
        r == ((la.kind, a.0@, a.1@) == (lb.kind, b.0@, b.1@)),
{
    la.kind == lb.kind && str_eq(a.0.as_str(), b.0.as_str()) && str_eq(
        a.1.as_str(),
        b.1.as_str(),
    )
}

/// Whether `a` and `b` are the same path, whatever separators and `.` they
/// are written with.
pub fn is_same_path(a: &str, b: &str) -> (r: bool)
    ensures
        r == same_path(a@, b@),
{
    let ca: Vec<char> = chars_of(a);
    let cb: Vec<char> = chars_of(b);
    let la = layout(&ca);
    let lb = layout(&cb);
    let pa: Vec<String> = parts(&ca, la.body, ca.len(), la.verbatim());
    let pb: Vec<String> = parts(&cb, lb.body, cb.len(), lb.verbatim());
    let xa = volume_names(&ca, &la);
    let xb = volume_names(&cb, &lb);
    let ghost ta = text::texts(pa@);
    let ghost tb = text::texts(pb@);
    if la.shows_root() != lb.shows_root() || la.here() != lb.here() || pa.len() != pb.len()
        || !same_volume(&la, &xa, &lb, &xb) {
        assert(ta.len() != tb.len() ==> ta != tb);
        return false;
    }
    assert(ta.subrange(0, pa@.len() as int) =~= ta);
    assert(tb.subrange(0, pa@.len() as int) =~= tb);
    let n: usize = pa.len();
    same_start(&pa, &pb, n)
}

/// Whether `p` is `base` or lies under it.
pub fn is_under(p: &str, base: &str) -> (r: bool)
    ensures
        r == under(p@, base@),
{
    let ca: Vec<char> = chars_of(p);
    let cb: Vec<char> = chars_of(base);
    let la = layout(&ca);
    let lb = layout(&cb);
    let pa: Vec<String> = parts(&ca, la.body, ca.len(), la.verbatim());
    let pb: Vec<String> = parts(&cb, lb.body, cb.len(), lb.verbatim());
    let xa = volume_names(&ca, &la);
    let xb = volume_names(&cb, &lb);
    let ghost ta = text::texts(pa@);
    let ghost tb = text::texts(pb@);
    if !same_volume(&la, &xa, &lb, &xb) {
        return lb.kind == PrefixKind::Absent && !lb.shows_root() && !lb.here() && pb.len() == 0;
    }
    if (lb.shows_root() && !la.shows_root()) || (lb.here() && !la.here()) {
        return false;
    }
    if la.shows_root() != lb.shows_root() || la.here() != lb.here() {
        return pb.len() == 0;
    }
    if pb.len() > pa.len() {
        return false;
    }
    let n: usize = pb.len();
    assert(tb.subrange(0, n as int) =~= tb);
    same_start(&pa, &pb, n)
}

/// `p` and the folders above it, nearest first.
pub open spec fn ancestors_of(p: Seq<char>) -> Seq<Seq<char>>
    decreases p.len(),
{
    match parent_of(p) {
        Some(q) => if q.len() < p.len() {
            seq![p] + ancestors_of(q)
        } else {
            seq![p]
        },
        None => seq![p],
    }
}

/// A parent is shorter than the path.
pub proof fn lemma_parent_shorter(p: Seq<char>)
    ensures
        parent_of(p) matches Some(q) ==> q.len() < p.len(),
{
    lemma_bounds(p);
    let lo = body_start(p);
    let v = is_verbatim(prefix_kind(p));
    if last_end(p) > lo {
        let k = last_start(p);
        if k > lo {
            lemma_body_end(p, lo, k - 1, v);
        }
    }
}

/// `p` and the folders above it, nearest first.
pub fn ancestors(p: &str) -> (r: Vec<String>)
    ensures
        text::texts(r@) == ancestors_of(p@),
        r@.len() >= 1,
{
    let mut out: Vec<String> = Vec::new();
    let mut cur = p.to_owned();
    loop
        invariant
            text::texts(out@) + ancestors_of(cur@) == ancestors_of(p@),
        decreases cur@.len(),
    {
        proof {
            lemma_parent_shorter(cur@);
        }
        let up = parent(cur.as_str());
        let ghost before = text::texts(out@);
        let ghost here = cur@;
        out.push(cur);
        assert(text::texts(out@) =~= before.push(here));
        match up {
            None => {
                assert(before + seq![here] =~= before.push(here));
                return out;
            },
            Some(q) => {
                assert(before.push(here) + ancestors_of(q@) =~= before + (seq![here]
                    + ancestors_of(q@)));
                cur = q;
            },
        }
    }
}

/// What a path is called on screen: its last component, or the whole of it
/// where it has none.
pub open spec fn shown_name_of(p: Seq<char>) -> Seq<char> {
    match file_name_of(p) {
        Some(n) => n,
        None => p,
    }
}

/// What a path is called on screen.
pub fn shown_name(p: &str) -> (r: String)
    ensures
        r@ == shown_name_of(p@),
{
    match file_name(p) {
        Some(n) => n,
        None => p.to_owned(),
    }
}

/// The root of the network share that `p` lies on.
pub open spec fn unc_root_of(p: Seq<char>) -> Option<Seq<char>> {
    if prefix_kind(p) is Unc || prefix_kind(p) is VerbatimUnc {
        Some(p.subrange(0, prefix_len(p)).push('\\'))
    } else {
        None
    }
}

/// The root of the network share that `p` lies on, or nothing where `p` does
/// not name a share.
pub fn unc_root(p: &str) -> (r: Option<String>)
    ensures
        match r {
            Some(root) => unc_root_of(p@) == Some(root@),
            None => unc_root_of(p@) is None,
        },
{
    let cs: Vec<char> = chars_of(p);
    let at = layout(&cs);
    match at.kind {
        PrefixKind::Unc | PrefixKind::VerbatimUnc => {
            let mut root = string_of(&cs, 0, at.prefix);
            root.push('\\');
            Some(root)
        },
        _ => None,
    }
}

} // verus!
