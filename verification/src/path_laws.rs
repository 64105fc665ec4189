//! How joining a name to a folder and taking a path apart go together.

use crate::path::PrefixKind;
use crate::{path, text};
use vstd::prelude::*;

verus! {

// ---------------------------------------------------------------------------
// The beginning of a path
// ---------------------------------------------------------------------------

proof fn lemma_cut_component_end(p: Seq<char>, e: int, i: int, v: bool)
    requires
        0 <= i <= e <= p.len(),
    ensures
        path::component_end(p.subrange(0, e), i, v) == (if path::component_end(p, i, v) < e {
            path::component_end(p, i, v)
        } else {
            e
        }),
    decreases e - i,
{
    let q = p.subrange(0, e);
    path::lemma_component_end(p, i, v);
    if i < e {
        assert(q[i] == p[i]);
        if !path::separator(p[i], v) {
            lemma_cut_component_end(p, e, i + 1, v);
        }
    }
}

/// Where the beginning of `p` up to `e` still names the volume as `p` does.
spec fn keeps_prefix(p: Seq<char>, e: int) -> bool {
    &&& path::prefix_len(p) <= e <= p.len()
    &&& e > path::prefix_len(p) || !path::has_physical_root(p) || !(path::prefix_kind(p) is Absent
        || path::prefix_kind(p) is Disk)
}

proof fn lemma_cut_prefix(p: Seq<char>, e: int)
    requires
        keeps_prefix(p, e),
    ensures
        path::prefix_kind(p.subrange(0, e)) == path::prefix_kind(p),
        path::prefix_len(p.subrange(0, e)) == path::prefix_len(p),
        path::has_root(p.subrange(0, e)) == path::has_root(p),
        path::volume_of(p.subrange(0, e)) == path::volume_of(p),
{
    path::lemma_bounds(p);
    let q = p.subrange(0, e);
    let len = path::prefix_len(p);
    assert(forall|a: int, b: int|
        0 <= a <= b <= len ==> #[trigger] q.subrange(a, b) =~= p.subrange(a, b));
    assert(forall|i: int| 0 <= i < e ==> #[trigger] q[i] == p[i]);
    assert(forall|i: int, v: bool|
        0 <= i < e ==> #[trigger] path::sep_at(q, i, v) == path::sep_at(p, i, v));
    match path::prefix_kind(p) {
        PrefixKind::Absent => {
            if path::sep_at(p, 0, false) && path::sep_at(p, 1, false) && e >= 2 {
                path::lemma_component_end(p, 2, false);
                let e0 = path::component_end(p, 2, false);
                path::lemma_component_end(p, e0 + 1, false);
                lemma_cut_component_end(p, e, 2, false);
                path::lemma_component_end(q, path::component_end(q, 2, false) + 1, false);
                if e > e0 {
                    lemma_cut_component_end(p, e, e0 + 1, false);
                }
            }
        },
        PrefixKind::Disk => {},
        PrefixKind::Unc => {
            path::lemma_component_end(p, 2, false);
            let e0 = path::component_end(p, 2, false);
            path::lemma_component_end(p, e0 + 1, false);
            lemma_cut_component_end(p, e, 2, false);
            lemma_cut_component_end(p, e, e0 + 1, false);
        },
        PrefixKind::Device => {
            path::lemma_component_end(p, 4, false);
            lemma_cut_component_end(p, e, 4, false);
        },
        PrefixKind::VerbatimUnc => {
            path::lemma_component_end(p, 8, true);
            let e0 = path::component_end(p, 8, true);
            path::lemma_component_end(p, e0 + 1, true);
            lemma_cut_component_end(p, e, 8, true);
            if e > e0 {
                lemma_cut_component_end(p, e, e0 + 1, true);
            } else {
                path::lemma_component_end(q, e0 + 1, true);
            }
        },
        PrefixKind::VerbatimDisk => {},
        PrefixKind::Verbatim => {
            path::lemma_component_end(p, 4, true);
            lemma_cut_component_end(p, e, 4, true);
            if e == 6 && p.len() > 6 && path::drive_letter(p[4]) && p[5] == ':' {
                assert(!path::separator(p[4], true) && !path::separator(p[5], true)
                    && !path::separator(p[6], true));
                reveal_with_fuel(path::component_end, 4);
                path::lemma_component_end(p, 7, true);
                assert(path::component_end(p, 4, true) > 6);
            }
        },
    }
}

proof fn lemma_cut_component_start(p: Seq<char>, e: int, lo: int, hi: int, v: bool)
    requires
        0 <= lo,
        hi <= e <= p.len(),
    ensures
        path::component_start(p.subrange(0, e), lo, hi, v) == path::component_start(p, lo, hi, v),
    decreases hi - lo,
{
    if lo < hi {
        assert(p.subrange(0, e)[hi - 1] == p[hi - 1]);
        lemma_cut_component_start(p, e, lo, hi - 1, v);
    }
}

proof fn lemma_cut_body_end(p: Seq<char>, e: int, lo: int, hi: int, v: bool)
    requires
        0 <= lo,
        hi <= e <= p.len(),
    ensures
        path::body_end(p.subrange(0, e), lo, hi, v) == path::body_end(p, lo, hi, v),
    decreases hi - lo,
{
    if lo < hi {
        lemma_cut_component_start(p, e, lo, hi, v);
        path::lemma_component_start(p, lo, hi, v);
        let k = path::component_start(p, lo, hi, v);
        assert(p.subrange(0, e).subrange(k, hi) =~= p.subrange(k, hi));
        if k > lo {
            lemma_cut_body_end(p, e, lo, k - 1, v);
        }
    }
}

proof fn lemma_cut_body_parts(p: Seq<char>, e: int, lo: int, hi: int, v: bool)
    requires
        0 <= lo,
        hi <= e <= p.len(),
    ensures
        path::body_parts(p.subrange(0, e), lo, hi, v) == path::body_parts(p, lo, hi, v),
    decreases hi - lo,
{
    if lo <= hi {
        lemma_cut_body_end(p, e, lo, hi, v);
        path::lemma_body_end(p, lo, hi, v);
        let b = path::body_end(p, lo, hi, v);
        if b > lo {
            lemma_cut_component_start(p, e, lo, b, v);
            path::lemma_component_start(p, lo, b, v);
            let k = path::component_start(p, lo, b, v);
            assert(p.subrange(0, e).subrange(k, b) =~= p.subrange(k, b));
            if k > lo {
                lemma_cut_body_parts(p, e, lo, k - 1, v);
            }
        }
    }
}

proof fn lemma_body_end_is_an_end(p: Seq<char>, lo: int, hi: int, v: bool)
    requires
        0 <= lo <= hi <= p.len(),
    ensures
        lo <= path::body_end(p, lo, hi, v) <= hi,
        path::body_end(p, lo, path::body_end(p, lo, hi, v), v) == path::body_end(p, lo, hi, v),
        path::body_end(p, lo, hi, v) > lo ==> path::body_end(p, lo, hi, v) == hi || path::sep_at(
            p,
            path::body_end(p, lo, hi, v),
            v,
        ),
    decreases hi - lo,
{
    path::lemma_body_end(p, lo, hi, v);
    if lo < hi {
        path::lemma_component_start(p, lo, hi, v);
        let k = path::component_start(p, lo, hi, v);
        if path::empty_component(p.subrange(k, hi), v) && k > lo {
            lemma_body_end_is_an_end(p, lo, k - 1, v);
        }
    }
}

proof fn lemma_body_parts_end(p: Seq<char>, lo: int, hi: int, v: bool)
    requires
        0 <= lo <= hi <= p.len(),
    ensures
        path::body_parts(p, lo, hi, v) == path::body_parts(
            p,
            lo,
            path::body_end(p, lo, hi, v),
            v,
        ),
{
    lemma_body_end_is_an_end(p, lo, hi, v);
}

// ---------------------------------------------------------------------------
// Names in folders
// ---------------------------------------------------------------------------

/// `name` is the plain name of an item: one component that is neither the
/// folder itself nor the one above it.
pub open spec fn plain_name(name: Seq<char>) -> bool {
    &&& name.len() > 0
    &&& !name.contains('\\')
    &&& !name.contains('/')
    &&& name != seq!['.']
    &&& name != seq!['.', '.']
    &&& path::prefix_kind(name) is Absent
}

/// `name` can be put behind `dir` without becoming part of how `dir` names its
/// volume, as it would behind `\\server`, where it names the share.
pub open spec fn can_hold(dir: Seq<char>, name: Seq<char>) -> bool {
    path::prefix_len(path::joined_path(dir, name)) == path::prefix_len(dir)
}

/// Only `\` separates the components of `p`.
pub open spec fn verbatim(p: Seq<char>) -> bool {
    path::is_verbatim(path::prefix_kind(p))
}

/// Where the name begins in the joined path, with what is known of the path in
/// front of it.
proof fn lemma_joined(dir: Seq<char>, name: Seq<char>) -> (k: int)
    requires
        plain_name(name),
        can_hold(dir, name),
        !verbatim(dir),
    ensures
        !verbatim(path::joined_path(dir, name)),
        ({
            let j = path::joined_path(dir, name);
            let v = path::is_verbatim(path::prefix_kind(j));
            &&& k == j.len() - name.len()
            &&& j.subrange(k, j.len() as int) == name
            &&& path::body_start(j) <= k
            &&& path::last_end(j) == j.len()
            &&& path::last_start(j) == k
            &&& dir.len() <= k
            &&& dir == j.subrange(0, dir.len() as int)
            &&& dir.len() > 0 ==> keeps_prefix(j, dir.len() as int)
            &&& k == dir.len() || (k == dir.len() + 1 && path::sep_at(j, k - 1, v))
            &&& k == dir.len() ==> dir.len() == path::body_start(j) || path::sep_at(j, k - 1, v)
        }),
{
    let j = path::joined_path(dir, name);
    let n = dir.len() as int;
    assert(forall|i: int| 0 <= i < name.len() ==> #[trigger] name[i] != '\\' && name[i] != '/');
    path::lemma_bounds(name);
    path::lemma_bounds(dir);
    assert(!path::has_root(name));
    let k = j.len() - name.len();
    assert(j.subrange(k, j.len() as int) =~= name);
    assert(j.subrange(0, n) =~= dir);
    assert(forall|i: int| k <= i < j.len() ==> #[trigger] j[i] == name[i - k]);
    path::lemma_bounds(j);
    let v = false;
    assert(forall|i: int| k <= i < j.len() ==> !#[trigger] path::sep_at(j, i, false));
    // the prefix lies in front of the name
    if n > 0 {
        assert(keeps_prefix(j, n)) by {
            if n == path::prefix_len(j) && path::has_physical_root(j) && path::prefix_kind(
                j,
            ) is Disk {
                assert(n == 2);
                assert(path::prefix_kind(dir) is Disk);
            }
        }
        lemma_cut_prefix(j, n);
    }
    // so does the body
    assert(path::body_start(j) <= k) by {
        if path::leading_dot(j) && path::prefix_len(j) == k {
            assert(name[0] == '.');
            if name.len() > 1 {
                assert(path::sep_at(j, k + 1, v));
            } else {
                assert(name =~= seq!['.']);
            }
        }
    }
    let lo = path::body_start(j);
    lemma_no_separator(j, lo, k, j.len() as int, v);
    let c = j.subrange(k, j.len() as int);
    assert(!path::empty_component(c, v));
    k
}

/// Without a separator behind `k`, the last component begins at `k`.
proof fn lemma_no_separator(p: Seq<char>, lo: int, k: int, hi: int, v: bool)
    requires
        0 <= lo <= k <= hi <= p.len(),
        k == lo || path::sep_at(p, k - 1, v),
        forall|i: int| k <= i < hi ==> !#[trigger] path::sep_at(p, i, v),
    ensures
        path::component_start(p, lo, hi, v) == k,
    decreases hi - k,
{
    if k < hi {
        assert(!path::sep_at(p, hi - 1, v));
        lemma_no_separator(p, lo, k, hi - 1, v);
    }
}

/// The name of what is put into a folder is the name under which it was put
/// there.
pub proof fn law_name_of_joined(dir: Seq<char>, name: Seq<char>)
    requires
        plain_name(name),
        can_hold(dir, name),
    ensures
        path::file_name_of(path::joined_path(dir, name)) == Some(name),
{
    if verbatim(dir) {
        lemma_verbatim_joined(dir, name);
    } else {
        let k = lemma_joined(dir, name);
    }
}

/// The components of a plain name are that name.
proof fn lemma_plain_parts(name: Seq<char>)
    requires
        plain_name(name),
    ensures
        !path::has_root(name),
        path::body_parts(name, path::body_start(name), name.len() as int, false) == seq![name],
{
    assert(forall|i: int| 0 <= i < name.len() ==> #[trigger] name[i] != '\\' && name[i] != '/');
    path::lemma_bounds(name);
    assert(!path::leading_dot(name)) by {
        if path::leading_dot(name) {
            assert(name =~= seq!['.']);
        }
    }
    let n = name.len() as int;
    lemma_no_separator(name, 0, 0, n, false);
    assert(name.subrange(0, n) =~= name);
    assert(path::body_end(name, 0, n, false) == n);
    assert(path::body_parts(name, 0, n, false) =~= seq![name]);
}

/// No component of a verbatim path is empty or holds a separator.
proof fn lemma_verbatim_parts(p: Seq<char>, lo: int, hi: int)
    requires
        0 <= lo <= hi <= p.len(),
    ensures
        forall|i: int|
            0 <= i < path::body_parts(p, lo, hi, true).len() ==> is_part(
                #[trigger] path::body_parts(p, lo, hi, true)[i],
            ),
    decreases hi - lo,
{
    path::lemma_body_end(p, lo, hi, true);
    let e = path::body_end(p, lo, hi, true);
    if e > lo {
        lemma_body_end_is_an_end(p, lo, hi, true);
        path::lemma_component_start(p, lo, e, true);
        let k = path::component_start(p, lo, e, true);
        let last = p.subrange(k, e);
        assert(is_part(last)) by {
            if k > lo {
                path::lemma_body_end(p, lo, k - 1, true);
            }
            assert(!path::empty_component(last, true));
            assert forall|i: int| 0 <= i < last.len() implies #[trigger] last[i] != '\\' by {
                assert(!path::sep_at(p, k + i, true));
            }
        }
        let all = path::body_parts(p, lo, hi, true);
        let rest = if k > lo {
            path::body_parts(p, lo, k - 1, true)
        } else {
            Seq::<Seq<char>>::empty()
        };
        if k > lo {
            lemma_verbatim_parts(p, lo, k - 1);
        }
        assert(all == rest.push(last));
        assert forall|i: int| 0 <= i < all.len() implies is_part(#[trigger] all[i]) by {
            if i < rest.len() {
                assert(all[i] == rest[i]);
            }
        }
    }
}

/// `c` can be a component of a verbatim path.
spec fn is_part(c: Seq<char>) -> bool {
    &&& c.len() > 0
    &&& forall|i: int| 0 <= i < c.len() ==> #[trigger] c[i] != '\\'
}

/// A component at the end is read behind what stands before it.
proof fn lemma_part_at_the_end(p: Seq<char>, lo: int, k: int)
    requires
        0 <= lo <= k <= p.len(),
        k == lo || p[k - 1] == '\\',
        is_part(p.subrange(k, p.len() as int)),
    ensures
        path::body_parts(p, lo, p.len() as int, true) == (if k > lo {
            path::body_parts(p, lo, k - 1, true)
        } else {
            Seq::<Seq<char>>::empty()
        }).push(p.subrange(k, p.len() as int)),
{
    let hi = p.len() as int;
    let last = p.subrange(k, hi);
    assert forall|i: int| k <= i < hi implies !#[trigger] path::sep_at(p, i, true) by {
        assert(p[i] == last[i - k]);
    }
    lemma_no_separator(p, lo, k, hi, true);
    assert(path::body_end(p, lo, hi, true) == hi);
}

/// Components that are written behind a separator are read back.
proof fn lemma_parts_read_back(front: Seq<char>, parts: Seq<Seq<char>>)
    requires
        forall|i: int| 0 <= i < parts.len() ==> is_part(#[trigger] parts[i]),
    ensures
        ({
            let p = front + text::joined(parts, seq!['\\']);
            path::body_parts(p, front.len() as int, p.len() as int, true) == parts
        }),
    decreases parts.len(),
{
    let sep = seq!['\\'];
    let lo = front.len() as int;
    let p = front + text::joined(parts, sep);
    let hi = p.len() as int;
    if parts.len() == 0 {
        assert(path::body_parts(p, lo, hi, true) =~= parts);
    } else {
        let last = parts.last();
        let rest = parts.drop_last();
        let k = hi - last.len();
        assert(is_part(parts[parts.len() - 1]));
        assert(rest.push(last) =~= parts);
        if parts.len() == 1 {
            assert(p.subrange(k, hi) =~= last);
            assert(rest =~= Seq::<Seq<char>>::empty());
            lemma_part_at_the_end(p, lo, k);
        } else {
            assert forall|i: int| 0 <= i < rest.len() implies is_part(#[trigger] rest[i]) by {
                assert(rest[i] == parts[i]);
            }
            lemma_parts_read_back(front, rest);
            let q = front + text::joined(rest, sep);
            assert(p =~= q + sep + last);
            assert(p.subrange(k, hi) =~= last);
            assert(p[k - 1] == sep[0]);
            lemma_part_at_the_end(p, lo, k);
            assert(p.subrange(0, k - 1) =~= q);
            lemma_cut_body_parts(p, k - 1, lo, k - 1, true);
        }
    }
}

/// The last component of `p`, and what is left without it.
proof fn lemma_last_part(p: Seq<char>)
    requires
        path::components_of(p).3.len() > 0,
    ensures
        path::last_end(p) > path::body_start(p),
        p.subrange(path::last_start(p), path::last_end(p)) == path::components_of(p).3.last(),
        path::parent_of(p) matches Some(up) && {
            &&& keeps_prefix(p, up.len() as int)
            &&& path::body_start(p) <= up.len() <= p.len()
            &&& up == p.subrange(0, up.len() as int)
            &&& path::body_parts(
                p,
                path::body_start(p),
                up.len() as int,
                verbatim(p),
            ) == path::components_of(p).3.drop_last()
        },
{
    path::lemma_bounds(p);
    let lo = path::body_start(p);
    let v = verbatim(p);
    let e = path::last_end(p);
    let k = path::last_start(p);
    let parts = path::components_of(p).3;
    if k > lo {
        lemma_body_end_is_an_end(p, lo, k - 1, v);
        lemma_body_parts_end(p, lo, k - 1, v);
        assert(parts.drop_last() =~= path::body_parts(p, lo, k - 1, v));
    } else {
        assert(parts.drop_last() =~= Seq::<Seq<char>>::empty());
        assert(path::body_parts(p, lo, lo, v) =~= Seq::<Seq<char>>::empty());
    }
}

/// A name that is put into a verbatim folder stands behind the components of
/// that folder.
proof fn lemma_verbatim_joined(dir: Seq<char>, name: Seq<char>)
    requires
        plain_name(name),
        can_hold(dir, name),
        verbatim(dir),
    ensures
        ({
            let j = path::joined_path(dir, name);
            &&& path::prefix_kind(j) == path::prefix_kind(dir)
            &&& path::volume_of(j) == path::volume_of(dir)
            &&& path::has_physical_root(j)
            &&& path::components_of(j).3 == path::components_of(dir).3.push(name)
            &&& path::file_name_of(j) == Some(name)
        }),
{
    let j = path::joined_path(dir, name);
    let own = path::components_of(dir).3;
    let n = path::prefix_len(dir);
    path::lemma_bounds(dir);
    lemma_plain_parts(name);
    let more = seq![name];
    assert(more.drop_last() =~= Seq::<Seq<char>>::empty());
    assert(path::descended(own, more.drop_last()) == own);
    assert(path::descended(own, more) == own.push(name));
    let volume = dir.subrange(0, n);
    let front = volume.push('\\');
    let all = own.push(name);
    assert(j == front + text::joined(all, seq!['\\']));
    lemma_verbatim_parts(dir, path::body_start(dir), dir.len() as int);
    assert(is_part(name)) by {
        assert forall|i: int| 0 <= i < name.len() implies #[trigger] name[i] != '\\' by {}
    }
    assert forall|i: int| 0 <= i < all.len() implies is_part(#[trigger] all[i]) by {
        if i < own.len() {
            assert(all[i] == own[i]);
        }
    }
    lemma_parts_read_back(front, all);
    path::lemma_bounds(j);
    assert(j.subrange(0, n) =~= volume);
    assert(j[n] == '\\');
    lemma_cut_prefix(dir, n);
    assert(path::prefix_kind(j) is Absent || path::prefix_kind(j) is Disk ==> false) by {
        assert(volume[0] == '\\' && volume[1] == '\\' && volume[2] == '?' && volume[3] == '\\');
        assert(j[0] == volume[0] && j[1] == volume[1] && j[2] == volume[2] && j[3] == volume[3]);
    }
    lemma_cut_prefix(j, n);
    assert(path::body_start(j) == front.len());
    lemma_last_part(j);
    assert(path::names_item(name));
}

/// The folder above what is put into a folder is that folder. A verbatim path
/// has to show its root for that.
pub proof fn law_parent_of_joined(dir: Seq<char>, name: Seq<char>)
    requires
        plain_name(name),
        can_hold(dir, name),
        dir.len() > 0,
        path::root_part(dir) || !verbatim(dir),
    ensures
        path::parent_of(path::joined_path(dir, name)) matches Some(up) && path::same_path(up, dir),
{
    let j = path::joined_path(dir, name);
    if verbatim(dir) {
        lemma_verbatim_joined(dir, name);
        lemma_last_part(j);
        let up = path::parent_of(j)->0;
        let m = up.len() as int;
        lemma_cut_prefix(j, m);
        path::lemma_bounds(j);
        assert(up[path::prefix_len(j)] == j[path::prefix_len(j)]);
        assert(path::has_physical_root(up));
        lemma_cut_body_parts(j, m, path::body_start(j), m, true);
        let own = path::components_of(dir).3;
        assert(own.push(name).drop_last() =~= own);
    } else {
        lemma_parent_of_joined(dir, name);
    }
}

proof fn lemma_parent_of_joined(dir: Seq<char>, name: Seq<char>)
    requires
        plain_name(name),
        can_hold(dir, name),
        dir.len() > 0,
        !verbatim(dir),
    ensures
        path::parent_of(path::joined_path(dir, name)) matches Some(up) && path::same_path(up, dir),
{
    let j = path::joined_path(dir, name);
    let k = lemma_joined(dir, name);
    let n = dir.len() as int;
    let v = false;
    let lo = path::body_start(j);
    let end = if k > lo {
        path::body_end(j, lo, k - 1, v)
    } else {
        lo
    };
    let up = j.subrange(0, end);
    path::lemma_bounds(j);
    assert(path::parent_of(j) == Some(up));
    if k > lo {
        lemma_body_end_is_an_end(j, lo, k - 1, v);
    }
    lemma_cut_prefix(j, n);
    assert(keeps_prefix(j, end));
    lemma_cut_prefix(j, end);
    // the leading dot
    lemma_leading_dot(j, n);
    lemma_leading_dot(j, end);
    // the components
    if path::body_start(dir) == lo {
        lemma_cut_body_parts(j, n, lo, n, v);
        lemma_cut_body_parts(j, end, lo, end, v);
        lemma_body_parts_end(j, lo, n, v);
        if k > lo {
            if k == n {
                // `dir` ends in a separator
                assert(path::component_start(j, lo, n, v) == n);
                assert(j.subrange(n, n).len() == 0);
                assert(path::body_end(j, lo, n, v) == path::body_end(j, lo, n - 1, v));
            }
            assert(path::body_end(j, lo, n, v) == end);
        } else {
            assert(n == lo);
            assert(path::body_end(j, lo, n, v) == lo);
        }
        assert(path::body_parts(dir, lo, n, v) == path::body_parts(up, lo, end, v));
    } else {
        // `dir` is a bare prefix
        assert(path::body_parts(dir, path::body_start(dir), n, v) =~= Seq::<Seq<char>>::empty());
        assert(path::body_parts(up, path::body_start(up), end, v) =~= Seq::<Seq<char>>::empty());
    }
}

/// A beginning of `p` that ends where a component ends has a leading `.` where
/// `p` has one.
proof fn lemma_leading_dot(p: Seq<char>, e: int)
    requires
        keeps_prefix(p, e),
        e < p.len(),
        path::leading_dot(p) ==> e >= path::body_start(p),
        e > path::body_start(p) ==> path::sep_at(p, e, path::is_verbatim(path::prefix_kind(p)))
            || path::sep_at(p, e - 1, path::is_verbatim(path::prefix_kind(p))),
    ensures
        path::leading_dot(p.subrange(0, e)) == path::leading_dot(p),
{
    lemma_cut_prefix(p, e);
    path::lemma_bounds(p);
}

// ---------------------------------------------------------------------------
// Network shares
// ---------------------------------------------------------------------------

proof fn lemma_component_end_before_separator(s: Seq<char>, i: int, v: bool)
    requires
        0 <= i <= s.len(),
    ensures
        path::component_end(s.push('\\'), i, v) == path::component_end(s, i, v),
    decreases s.len() - i,
{
    let q = s.push('\\');
    if i < s.len() {
        assert(q[i] == s[i]);
        if !path::separator(s[i], v) {
            lemma_component_end_before_separator(s, i + 1, v);
        }
    } else {
        assert(q[i] == '\\');
    }
}

/// A path on a network share lies under the root of that share, unless it is
/// verbatim and stops short of the root, and the root is its own root.
pub proof fn law_share_root_covers(p: Seq<char>)
    requires
        path::unc_root_of(p) is Some,
    ensures
        path::root_part(p) ==> path::under(p, path::unc_root_of(p)->0),
        path::unc_root_of(path::unc_root_of(p)->0) == path::unc_root_of(p),
{
    path::lemma_bounds(p);
    let n = path::prefix_len(p);
    let s = p.subrange(0, n);
    let root = s.push('\\');
    lemma_cut_prefix(p, n);
    let v = path::is_verbatim(path::prefix_kind(p));
    let at: int = if v {
        8
    } else {
        2
    };
    path::lemma_component_end(s, at, v);
    let e = path::component_end(s, at, v);
    lemma_component_end_before_separator(s, at, v);
    if e + 1 <= n {
        lemma_component_end_before_separator(s, e + 1, v);
    } else {
        path::lemma_component_end(s, e + 1, v);
        path::lemma_component_end(root, e + 1, v);
    }
    assert(forall|i: int| 0 <= i < n ==> #[trigger] root[i] == s[i]);
    assert(path::prefix_kind(root) == path::prefix_kind(p));
    assert(path::prefix_len(root) == n);
    path::lemma_bounds(root);
    assert(root.subrange(0, n) =~= s);
    lemma_cut_prefix(root, n);
    assert(path::volume_of(root) == path::volume_of(p));
    assert(path::body_start(root) == n + 1);
    assert(path::body_parts(root, n + 1, n + 1, v) =~= Seq::<Seq<char>>::empty());
    let parts = path::components_of(p).3;
    assert(parts.subrange(0, 0) =~= Seq::<Seq<char>>::empty());
    assert(root.subrange(0, n) =~= s);
}

// ---------------------------------------------------------------------------
// Stems and extensions
// ---------------------------------------------------------------------------

/// Where the last `c` of `s` stands.
pub(crate) proof fn lemma_last_index(s: Seq<char>, c: char)
    ensures
        -1 <= path::last_index_of(s, c) < s.len(),
        path::last_index_of(s, c) >= 0 ==> s[path::last_index_of(s, c)] == c,
        forall|j: int| path::last_index_of(s, c) < j < s.len() ==> #[trigger] s[j] != c,
    decreases s.len(),
{
    if s.len() > 0 && s.last() != c {
        lemma_last_index(s.drop_last(), c);
        assert(forall|j: int|
            path::last_index_of(s, c) < j < s.len() - 1 ==> #[trigger] s[j] == s.drop_last()[j]);
    }
}

/// Stem and extension make up the name: the extension is what follows the last
/// dot, a name that begins with its only dot has none, and a name without an
/// extension is all stem.
pub proof fn law_stem_and_extension_make_the_name(
    p: &str,
    name: Option<String>,
    stem: Option<String>,
    ext: Option<String>,
)
    requires
        call_ensures(path::file_name, (p,), name),
        call_ensures(path::file_stem, (p,), stem),
        call_ensures(path::extension, (p,), ext),
    ensures
        name is None <==> stem is None,
        name is None ==> ext is None,
        name matches Some(n) ==> match ext {
            Some(e) => stem->0@.len() > 0 && !e@.contains('.') && n@ == stem->0@.push('.') + e@,
            None => stem->0@ == n@ && forall|j: int|
                0 < j < n@.len() ==> #[trigger] n@[j] != '.',
        },
{
    match name {
        Some(n) => {
            lemma_last_index(n@, '.');
            let k = path::last_index_of(n@, '.');
            if k > 0 {
                let e = n@.subrange(k + 1, n@.len() as int);
                let st = n@.subrange(0, k);
                assert(n@ =~= st.push('.') + e);
                if e.contains('.') {
                    let j = choose|j: int| 0 <= j < e.len() && e[j] == '.';
                    assert(n@[k + 1 + j] == '.');
                }
            }
        },
        None => {},
    }
}

/// The extension of a file called `name` is `e` just where the name ends in a
/// dot and `e`, and is not that alone.
pub(crate) proof fn lemma_extension(p: Seq<char>, name: Seq<char>, e: Seq<char>)
    requires
        path::file_name_of(p) == Some(name),
        !e.contains('.'),
    ensures
        path::extension_of(p) == Some(e) <==> name.len() > e.len() + 1 && text::has_suffix(
            name,
            seq!['.'] + e,
        ),
{
    lemma_last_index(name, '.');
    let k = path::last_index_of(name, '.');
    let dotted = seq!['.'] + e;
    if path::extension_of(p) == Some(e) {
        let tail = name.subrange(name.len() - dotted.len(), name.len() as int);
        assert(name.subrange(k + 1, name.len() as int) == e);
        assert forall|j: int| 0 <= j < tail.len() implies tail[j] == dotted[j] by {
            if j > 0 {
                assert(dotted[j] == e[j - 1]);
                assert(name.subrange(k + 1, name.len() as int)[j - 1] == name[k + j]);
            }
        }
        assert(tail =~= dotted);
    }
    if name.len() > e.len() + 1 && text::has_suffix(name, dotted) {
        let at = name.len() - dotted.len();
        let tail = name.subrange(at, name.len() as int);
        assert(tail == dotted);
        assert(name[at] == tail[0]);
        assert(dotted[0] == '.');
        if k > at {
            assert(tail[k - at] == name[k]);
            assert(dotted[k - at] == e[k - at - 1]);
            assert(e.contains('.'));
        }
        assert(k == at);
        let rest = name.subrange(k + 1, name.len() as int);
        assert forall|j: int| 0 <= j < rest.len() implies rest[j] == e[j] by {
            assert(tail[j + 1] == name[at + j + 1]);
            assert(dotted[j + 1] == e[j]);
        }
        assert(rest =~= e);
    }
}

// ---------------------------------------------------------------------------
// Above and below
// ---------------------------------------------------------------------------

/// The folders above a path are reached one parent at a time, up to one that
/// has no parent.
pub proof fn law_ancestors_are_parents(p: &str, r: Vec<String>)
    requires
        call_ensures(path::ancestors, (p,), r),
    ensures
        r@.len() > 0 && r@[0]@ == p@,
        forall|i: int|
            0 < i < r@.len() ==> path::parent_of(#[trigger] r@[i - 1]@) == Some(r@[i]@),
        path::parent_of(r@.last()@) is None,
{
    lemma_ancestors(p@);
    let t = text::texts(r@);
    assert(t == path::ancestors_of(p@));
    assert forall|i: int| 0 < i < r@.len() implies path::parent_of(#[trigger] r@[i - 1]@) == Some(
        r@[i]@,
    ) by {
        assert(t[i - 1] == r@[i - 1]@ && t[i] == r@[i]@);
        assert(path::parent_of(t[i - 1]) == Some(t[i]));
    }
    assert(t[0] == r@[0]@ && t.last() == r@.last()@);
}

pub(crate) proof fn lemma_ancestors(p: Seq<char>)
    ensures
        ({
            let a = path::ancestors_of(p);
            &&& a.len() > 0 && a[0] == p
            &&& forall|i: int| 0 < i < a.len() ==> path::parent_of(#[trigger] a[i - 1]) == Some(a[i])
            &&& path::parent_of(a.last()) is None
        }),
    decreases p.len(),
{
    path::lemma_parent_shorter(p);
    let a = path::ancestors_of(p);
    match path::parent_of(p) {
        Some(q) => {
            lemma_ancestors(q);
            let b = path::ancestors_of(q);
            assert(a == seq![p] + b);
            assert forall|i: int| 0 < i < a.len() implies path::parent_of(#[trigger] a[i - 1])
                == Some(a[i]) by {
                assert(a[i] == b[i - 1]);
                if i > 1 {
                    assert(a[i - 1] == b[i - 2]);
                    assert(path::parent_of(b[(i - 1) - 1]) == Some(b[i - 1]));
                }
            }
            assert(a.last() == b.last());
        },
        None => {},
    }
}

/// The components of what is put into a folder are those of the folder, and the
/// name behind them.
proof fn lemma_joined_components(dir: Seq<char>, name: Seq<char>)
    requires
        plain_name(name),
        can_hold(dir, name),
        dir.len() > 0,
        path::root_part(dir) || !verbatim(dir),
    ensures
        ({
            let j = path::joined_path(dir, name);
            &&& path::components_of(j).0 == path::components_of(dir).0
            &&& path::components_of(j).1 == path::components_of(dir).1
            &&& path::components_of(j).2 == path::components_of(dir).2
            &&& path::components_of(j).3 == path::components_of(dir).3.push(name)
        }),
{
    let j = path::joined_path(dir, name);
    if verbatim(dir) {
        lemma_verbatim_joined(dir, name);
        path::lemma_bounds(j);
    } else {
        let k = lemma_joined(dir, name);
        law_name_of_joined(dir, name);
        lemma_parent_of_joined(dir, name);
        lemma_parent_components(j);
    }
}

/// What is put into a folder lies under it, and the folder does not lie under
/// what it holds. Under different names one puts different paths there, and the
/// same path under the same name.
pub proof fn law_a_folder_holds_its_items(
    dir: &str,
    first: Seq<char>,
    second: Seq<char>,
    a: &str,
    b: &str,
    inside: bool,
    outside: bool,
    same: bool,
)
    requires
        plain_name(first) && can_hold(dir@, first),
        plain_name(second) && can_hold(dir@, second),
        dir@.len() > 0,
        path::root_part(dir@) || !verbatim(dir@),
        a@ == path::joined_path(dir@, first),
        b@ == path::joined_path(dir@, second),
        call_ensures(path::is_under, (a, dir), inside),
        call_ensures(path::is_under, (dir, a), outside),
        call_ensures(path::is_same_path, (a, b), same),
    ensures
        inside && !outside,
        same <==> first == second,
{
    lemma_joined_components(dir@, first);
    lemma_joined_components(dir@, second);
    let own = path::components_of(dir@).3;
    assert(own.push(first).subrange(0, own.len() as int) =~= own);
    if first != second {
        assert(own.push(first).last() != own.push(second).last());
    }
}

/// Lying under goes from folder to folder, and every path lies under itself.
pub proof fn law_under_is_an_order(a: Seq<char>, b: Seq<char>, c: Seq<char>)
    ensures
        path::under(a, a),
        path::under(a, b) && path::under(b, c) ==> path::under(a, c),
        path::under(a, b) && path::under(b, a) ==> path::same_path(a, b),
{
    let (x, y, z) = (path::components_of(a), path::components_of(b), path::components_of(c));
    assert(x.3.subrange(0, x.3.len() as int) =~= x.3);
    assert(y.3.subrange(0, y.3.len() as int) =~= y.3);
    if path::under(a, b) && path::under(b, c) && y.3.len() <= x.3.len() && z.3.len() <= y.3.len()
        && x.3.subrange(0, y.3.len() as int) == y.3 {
        assert(x.3.subrange(0, z.3.len() as int) =~= y.3.subrange(0, z.3.len() as int));
    }
}

/// The components of a parent are those of the path but the last.
proof fn lemma_parent_components(p: Seq<char>)
    requires
        !verbatim(p),
        path::file_name_of(p) is Some,
    ensures
        path::parent_of(p) matches Some(up) && {
            &&& !verbatim(up)
            &&& path::components_of(up).0 == path::components_of(p).0
            &&& path::components_of(up).1 == path::components_of(p).1
            &&& path::components_of(up).2 == path::components_of(p).2
            &&& path::components_of(p).3 == path::components_of(up).3.push(
                path::file_name_of(p)->0,
            )
        },
{
    let v = false;
    let lo = path::body_start(p);
    path::lemma_bounds(p);
    let parts = path::body_parts(p, lo, p.len() as int, v);
    assert(parts.len() > 0);
    lemma_last_part(p);
    let up = path::parent_of(p)->0;
    let e = up.len() as int;
    let k = path::last_start(p);
    lemma_cut_prefix(p, e);
    lemma_cut_body_parts(p, e, lo, e, v);
    path::lemma_component_start(p, lo, path::last_end(p), v);
    lemma_body_end_is_an_end(p, lo, if k > lo { k - 1 } else { lo }, v);
    lemma_leading_dot(p, e);
    assert(path::has_physical_root(up) == path::has_physical_root(p)) by {
        if path::has_physical_root(p) {
            assert(up[path::prefix_len(p)] == p[path::prefix_len(p)]);
        } else if path::has_physical_root(up) {
            assert(up[path::prefix_len(p)] == p[path::prefix_len(p)]);
        }
    }
    assert(path::body_start(up) == lo);
    assert(path::components_of(up).3 == path::components_of(p).3.drop_last());
    assert(path::components_of(p).3 =~= path::components_of(p).3.drop_last().push(
        path::components_of(p).3.last(),
    ));
}

/// A path is the item of its name in its parent.
pub proof fn law_a_path_is_its_parents_item(p: &str, up: Option<String>, name: Option<String>)
    requires
        call_ensures(path::parent, (p,), up),
        call_ensures(path::file_name, (p,), name),
        !verbatim(p@),
        name is Some,
    ensures
        up is Some,
        path::under(p@, up->0@),
        plain_name(name->0@) && can_hold(up->0@, name->0@) && up->0@.len() > 0 ==> path::same_path(
            path::joined_path(up->0@, name->0@),
            p@,
        ),
{
    lemma_parent_components(p@);
    let u = up->0@;
    let n = name->0@;
    let own = path::components_of(u).3;
    assert(own.push(n).subrange(0, own.len() as int) =~= own);
    if plain_name(n) && can_hold(u, n) && u.len() > 0 {
        lemma_joined_components(u, n);
    }
}

} // verus!
