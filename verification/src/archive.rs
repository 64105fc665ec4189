//! Which files are archives, and what extracting one amounts to.

use crate::path::{extension, file_name, join, parent};
use crate::text::{ends_with, str_eq};
use crate::{path, path_laws, text};
use vstd::prelude::*;

verus! {

/// How the contents of an archive are packed.
#[derive(Debug, Clone, Copy, PartialEq, Eq, Structural)]
pub enum ArchiveFormat {
    Zip,
    Tar,
    TarGz,
}

/// The file name of `p` ends in `.tar.gz` or `.tgz`.
pub open spec fn names_tar_gz(p: Seq<char>) -> bool {
    path::file_name_of(p) matches Some(n) && (text::has_suffix(n, ".tar.gz"@) || text::has_suffix(
        n,
        ".tgz"@,
    ))
}

/// `p` looks like an archive that can be extracted.
pub open spec fn names_archive(p: Seq<char>) -> bool {
    names_tar_gz(p) || path::extension_of(p) == Some("zip"@) || path::extension_of(p) == Some(
        "tar"@,
    )
}

/// Returns true if the path is a `.tar.gz` or `.tgz` file.
pub fn is_tar_gz(p: &str) -> (r: bool)
    ensures
        r == names_tar_gz(p@),
{
    match file_name(p) {
        Some(name) => ends_with(name.as_str(), ".tar.gz") || ends_with(name.as_str(), ".tgz"),
        None => false,
    }
}

/// The extension of `p` is `wanted`.
fn has_extension(p: &str, wanted: &str) -> (r: bool)
    ensures
        r == (path::extension_of(p@) == Some(wanted@)),
{
    match extension(p) {
        Some(ext) => str_eq(ext.as_str(), wanted),
        None => false,
    }
}

/// Returns true if the path looks like a supported archive file.
///
/// A bare `.gz` (not `.tar.gz`/`.tgz`) is a single-file gzip stream, which
/// cannot be unpacked on its own, so it does not count as an archive here,
/// even though the extension alone might suggest it.
pub fn is_archive(p: &str) -> (r: bool)
    ensures
        r == names_archive(p@),
{
    is_tar_gz(p) || has_extension(p, "zip") || has_extension(p, "tar")
}

/// The format in which `p` is read; nothing where it is no archive.
pub open spec fn format_of(p: Seq<char>) -> Option<ArchiveFormat> {
    if names_tar_gz(p) {
        Some(ArchiveFormat::TarGz)
    } else if path::extension_of(p) == Some("zip"@) {
        Some(ArchiveFormat::Zip)
    } else if path::extension_of(p) == Some("tar"@) {
        Some(ArchiveFormat::Tar)
    } else {
        None
    }
}

/// Chooses how to extract the archive `p`: `.zip`, `.tar`, `.tar.gz` and `.tgz`
/// are supported. The error is the message that any other file gets, a bare
/// `.gz` among them.
pub fn archive_format(p: &str) -> (r: Result<ArchiveFormat, String>)
    ensures
        match r {
            Ok(f) => format_of(p@) == Some(f),
            Err(e) => format_of(p@) is None && e@ == "unsupported archive type: "@ + p@,
        },
        r is Err <==> !names_archive(p@),
{
    if is_tar_gz(p) {
        Ok(ArchiveFormat::TarGz)
    } else if has_extension(p, "zip") {
        Ok(ArchiveFormat::Zip)
    } else if has_extension(p, "tar") {
        Ok(ArchiveFormat::Tar)
    } else {
        let mut e = "unsupported archive type: ".to_owned();
        e.append(p);
        Err(e)
    }
}

/// The files that are offered for extraction are those that have a format.
pub proof fn law_archives_have_a_format(p: Seq<char>)
    ensures
        format_of(p) is Some <==> names_archive(p),
{
}

/// What one entry of a zip archive asks for on disk.
#[derive(Debug, PartialEq, Eq)]
pub enum ZipStep {
    /// Create the folder, with all folders above it.
    MakeDir(String),
    /// Create the folder `parent`, where there is one, then write the
    /// contents of the entry to `path`.
    WriteFile { parent: Option<String>, path: String },
}

/// The step for the entry `name` of an archive that is extracted into
/// `dest_dir`. `name` is a relative path without `..`.
pub fn zip_step(dest_dir: &str, name: &str, is_dir: bool) -> (r: ZipStep)
    ensures
        is_dir ==> (r matches ZipStep::MakeDir(d) && d@ == path::joined_path(dest_dir@, name@)),
        !is_dir ==> (r matches ZipStep::WriteFile { parent, path }
            && path@ == path::joined_path(dest_dir@, name@)
            && match parent {
                Some(up) => path::parent_of(path@) == Some(up@),
                None => path::parent_of(path@) is None,
            }),
{
    let out = join(dest_dir, name);
    if is_dir {
        ZipStep::MakeDir(out)
    } else {
        ZipStep::WriteFile { parent: parent(out.as_str()), path: out }
    }
}

/// The name alone tells an archive and its format: by its ending, which does
/// not make up the whole name of a `.zip` or `.tar` file.
pub proof fn law_archives_are_told_by_their_ending(
    p: &str,
    r: bool,
    f: Result<ArchiveFormat, String>,
)
    requires
        call_ensures(is_archive, (p,), r),
        call_ensures(archive_format, (p,), f),
    ensures
        path::file_name_of(p@) is None ==> !r && f is Err,
        path::file_name_of(p@) matches Some(n) ==> {
            let packed = text::has_suffix(n, seq!['.', 't', 'a', 'r', '.', 'g', 'z'])
                || text::has_suffix(n, seq!['.', 't', 'g', 'z']);
            let zip = n.len() > 4 && text::has_suffix(n, seq!['.', 'z', 'i', 'p']);
            let tar = n.len() > 4 && text::has_suffix(n, seq!['.', 't', 'a', 'r']);
            &&& r == (packed || zip || tar)
            &&& packed ==> f == Ok::<ArchiveFormat, String>(ArchiveFormat::TarGz)
            &&& zip ==> f == Ok::<ArchiveFormat, String>(ArchiveFormat::Zip)
            &&& tar ==> f == Ok::<ArchiveFormat, String>(ArchiveFormat::Tar)
            &&& f is Ok <==> r
        },
{
    reveal_strlit(".tar.gz");
    reveal_strlit(".tgz");
    reveal_strlit("zip");
    reveal_strlit("tar");
    assert(".tar.gz"@ =~= seq!['.', 't', 'a', 'r', '.', 'g', 'z']);
    assert(".tgz"@ =~= seq!['.', 't', 'g', 'z']);
    assert(seq!['.'] + "zip"@ =~= seq!['.', 'z', 'i', 'p']);
    assert(seq!['.'] + "tar"@ =~= seq!['.', 't', 'a', 'r']);
    match path::file_name_of(p@) {
        Some(n) => {
            path_laws::lemma_extension(p@, n, "zip"@);
            path_laws::lemma_extension(p@, n, "tar"@);
            lemma_endings(n);
        },
        None => {},
    }
}

/// No name has two of the endings.
proof fn lemma_endings(n: Seq<char>)
    ensures
        ({
            let gz = text::has_suffix(n, seq!['.', 't', 'a', 'r', '.', 'g', 'z']);
            let tgz = text::has_suffix(n, seq!['.', 't', 'g', 'z']);
            let zip = text::has_suffix(n, seq!['.', 'z', 'i', 'p']);
            let tar = text::has_suffix(n, seq!['.', 't', 'a', 'r']);
            &&& (gz || tgz) ==> !zip && !tar
            &&& zip ==> !tar
        }),
{
    let gz = seq!['.', 't', 'a', 'r', '.', 'g', 'z'];
    let tgz = seq!['.', 't', 'g', 'z'];
    let zip = seq!['.', 'z', 'i', 'p'];
    let tar = seq!['.', 't', 'a', 'r'];
    if text::has_suffix(n, gz) {
        assert(n.subrange(n.len() - 7, n.len() as int)[6] == n.last());
        assert(gz[6] == 'z');
    }
    if text::has_suffix(n, tgz) {
        assert(n.subrange(n.len() - 4, n.len() as int)[3] == n.last());
        assert(tgz[3] == 'z');
    }
    if text::has_suffix(n, zip) {
        assert(n.subrange(n.len() - 4, n.len() as int)[3] == n.last());
        assert(zip[3] == 'p');
    }
    if text::has_suffix(n, tar) {
        assert(n.subrange(n.len() - 4, n.len() as int)[3] == n.last());
        assert(tar[3] == 'r');
    }
}

/// An entry at the top of an archive is put into the folder that it is
/// extracted to, under its own name, and as what it is.
pub proof fn law_entries_are_put_where_asked(dest: &str, name: &str, is_dir: bool, r: ZipStep)
    requires
        call_ensures(zip_step, (dest, name, is_dir), r),
        path_laws::plain_name(name@),
        path_laws::can_hold(dest@, name@),
        dest@.len() > 0,
        path::root_part(dest@) || !path_laws::verbatim(dest@),
    ensures
        is_dir <==> r is MakeDir,
        match r {
            ZipStep::MakeDir(d) => path::file_name_of(d@) == Some(name@),
            ZipStep::WriteFile { parent, path: out } => path::file_name_of(out@) == Some(name@) && (
            parent matches Some(up) && path::same_path(up@, dest@)),
        },
{
    path_laws::law_name_of_joined(dest@, name@);
    path_laws::law_parent_of_joined(dest@, name@);
}

} // verus!
