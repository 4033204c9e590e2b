//! Small helpers: safe path components, archive kinds by URL, command output.

use vstd::prelude::*;

use crate::error::{EnvHiveError, EnvHiveErrorKind};
use crate::text::{
    append, append_str, chars_of, starts_with, starts_with_v, ends_with, ends_with_v, eq, has_char, has_char_v, lower, slice_of,
    to_lower, to_string, trim, trim_str,
};

verus! {

/// A name can stand as one path component: not empty, not `.` or `..`, and
/// without `/`, `\`, `:` (a drive prefix would discard the base on Windows)
/// or NUL.
pub open spec fn safe_name(s: Seq<char>) -> bool {
    &&& s.len() > 0
    &&& s != "."@
    &&& s != ".."@
    &&& !has_char(s, '/')
    &&& !has_char(s, '\\')
    &&& !has_char(s, ':')
    &&& !has_char(s, '\0')
}

/// Whether a tool or version name is safe to join onto a directory.
pub fn safe_component(name: &str) -> (r: bool)
    ensures
        r == safe_name(name@),
{
    let n = chars_of(name);
    n.len() > 0 && !eq(&n, &chars_of(".")) && !eq(&n, &chars_of("..")) && !has_char_v(&n, '/')
        && !has_char_v(&n, '\\') && !has_char_v(&n, ':') && !has_char_v(&n, '\0')
}

/// The archive format of a download.
#[derive(Debug, Clone, Copy, PartialEq, Eq, Structural)]
pub enum CompressKind {
    Zip,
    TarGz,
    TarXz,
    /// Not supported yet.
    SevenZip,
    /// A single executable, installed as it is, not extracted.
    Binary,
    Unknown,
}

/// The path part of a URL: the text before the first `?` or `#` (the
/// query and the fragment are dropped).
pub open spec fn url_path(s: Seq<char>) -> Seq<char>
    decreases s.len(),
{
    if s.len() == 0 {
        s
    } else if s[0] == '?' || s[0] == '#' {
        Seq::empty()
    } else {
        seq![s[0]] + url_path(s.drop_first())
    }
}

/// What follows the last `/` (the whole text when there is none).
pub open spec fn last_segment(s: Seq<char>) -> Seq<char>
    decreases s.len(),
{
    if s.len() == 0 {
        s
    } else if s.last() == '/' {
        Seq::empty()
    } else {
        last_segment(s.drop_last()).push(s.last())
    }
}

/// The format a file name (lower-cased) ends in.
pub open spec fn kind_of_name(n: Seq<char>) -> CompressKind {
    if ends_with(n, ".zip"@) {
        CompressKind::Zip
    } else if ends_with(n, ".tar.gz"@) || ends_with(n, ".tgz"@) {
        CompressKind::TarGz
    } else if ends_with(n, ".tar.xz"@) || ends_with(n, ".txz"@) {
        CompressKind::TarXz
    } else if ends_with(n, ".7z"@) {
        CompressKind::SevenZip
    } else if ends_with(n, ".exe"@) || ends_with(n, ".bin"@) || !has_char(n, '.') {
        CompressKind::Binary
    } else {
        CompressKind::Unknown
    }
}

/// The format of the file a URL names: the last segment of its path,
/// ignoring ASCII case, a query and a fragment.
pub open spec fn url_kind(url: Seq<char>) -> CompressKind {
    kind_of_name(last_segment(url_path(lower(url))))
}

fn url_path_v(s: &Vec<char>) -> (r: Vec<char>)
    ensures
        r@ == url_path(s@),
{
    let mut i: usize = 0;
    assert(s@.take(0) + s@.skip(0) =~= s@);
    assert(s@.take(0) =~= Seq::<char>::empty());
    assert(s@.skip(0) =~= s@);
    while i < s.len() && s[i] != '?' && s[i] != '#'
        invariant
            i <= s.len(),
            url_path(s@) == s@.take(i as int) + url_path(s@.skip(i as int)),
        decreases s.len() - i,
    {
        let ghost rest = s@.skip(i as int);
        assert(rest[0] == s@[i as int]);
        assert(rest.drop_first() =~= s@.skip(i + 1));
        assert(s@.take(i + 1) =~= s@.take(i as int) + seq![s@[i as int]]);
        i = i + 1;
    }
    if i < s.len() {
        assert(s@.skip(i as int)[0] == s@[i as int]);
    } else {
        assert(s@.skip(i as int) =~= Seq::<char>::empty());
    }
    assert(s@.take(i as int) + Seq::<char>::empty() =~= s@.take(i as int));
    slice_of(s, 0, i)
}

fn last_segment_v(s: &Vec<char>) -> (r: Vec<char>)
    ensures
        r@ == last_segment(s@),
{
    let mut start: usize = 0;
    let mut i: usize = 0;
    while i < s.len()
        invariant
            i <= s.len(),
            start <= i,
            last_segment(s@.take(i as int)) == s@.subrange(start as int, i as int),
        decreases s.len() - i,
    {
        assert(s@.take(i + 1).drop_last() =~= s@.take(i as int));
        if s[i] == '/' {
            start = i + 1;
            assert(s@.subrange(start as int, i + 1) =~= Seq::<char>::empty());
        } else {
            assert(s@.subrange(start as int, i + 1) =~= s@.subrange(start as int, i as int).push(
                s@[i as int],
            ));
        }
        i = i + 1;
    }
    assert(s@.take(s.len() as int) =~= s@);
    slice_of(s, start, s.len())
}

impl CompressKind {
    /// The format by the last segment of the URL's path, ignoring ASCII
    /// case; a `?query` or `#fragment` does not count.
    pub fn from_url(url: &str) -> (r: CompressKind)
        ensures
            r == url_kind(url@),
    {
        let l = to_lower(&chars_of(url));
        let p = url_path_v(&l);
        let n = last_segment_v(&p);
        if ends_with_v(&n, &chars_of(".zip")) {
            CompressKind::Zip
        } else if ends_with_v(&n, &chars_of(".tar.gz")) || ends_with_v(&n, &chars_of(".tgz")) {
            CompressKind::TarGz
        } else if ends_with_v(&n, &chars_of(".tar.xz")) || ends_with_v(&n, &chars_of(".txz")) {
            CompressKind::TarXz
        } else if ends_with_v(&n, &chars_of(".7z")) {
            CompressKind::SevenZip
        } else if ends_with_v(&n, &chars_of(".exe")) || ends_with_v(&n, &chars_of(".bin"))
            || !has_char_v(&n, '.') {
            CompressKind::Binary
        } else {
            CompressKind::Unknown
        }
    }

    pub fn is_supported(&self) -> (r: bool)
        ensures
            r == (*self == CompressKind::Zip || *self == CompressKind::TarGz || *self
                == CompressKind::TarXz || *self == CompressKind::Binary),
    {
        match self {
            CompressKind::Zip | CompressKind::TarGz | CompressKind::TarXz | CompressKind::Binary => true,
            _ => false,
        }
    }

    /// A single executable, installed without extraction.
    pub fn is_binary(&self) -> (r: bool)
        ensures
            r == (*self == CompressKind::Binary),
    {
        match self {
            CompressKind::Binary => true,
            _ => false,
        }
    }
}

/// A command's output as shown after installation: trimmed stdout, then
/// trimmed stderr on a line of its own when there is any.
pub open spec fn output_joined(stdout: Seq<char>, stderr: Seq<char>) -> Seq<char> {
    let s = trim(stdout);
    let e = trim(stderr);
    if e.len() == 0 {
        s
    } else if s.len() == 0 {
        e
    } else {
        s + seq!['\n'] + e
    }
}

/// Joins the (already decoded) stdout and stderr of a command.
pub fn output_text(stdout: &str, stderr: &str) -> (r: String)
    ensures
        r@ == output_joined(stdout@, stderr@),
{
    let mut s = trim_str(stdout);
    let e = trim_str(stderr);
    if e.len() > 0 {
        if s.len() > 0 {
            s.push('\n');
        }
        append(&mut s, &e);
    }
    to_string(&s)
}

// ---------------------------------------------------------------------------
// Moving an installation into place, removing links
// ---------------------------------------------------------------------------

/// How many times a directory rename is tried.
pub const RENAME_ATTEMPTS: u32 = 5;

/// What follows a failed rename of a freshly extracted directory.
#[derive(Debug, Clone, Copy, PartialEq, Eq, Structural)]
pub enum RenameStep {
    /// The directories are on different volumes: copy, then delete the source.
    CopyInstead,
    /// Access was denied on Windows (a virus scanner may still hold new
    /// files): wait this many milliseconds and try again.
    RetryAfter(u64),
    Fail,
}

/// The step after rename attempt `attempt` (from 0) failed with OS error
/// `os_error`: a cross-volume error (17 on Windows, 18 on Unix) copies
/// instead; access denied (5) on Windows waits 300 ms times the attempts
/// made and retries while attempts are left; anything else fails.
pub fn after_rename_error(os_error: Option<i32>, windows: bool, attempt: u32) -> (r: RenameStep)
    requires
        attempt < RENAME_ATTEMPTS,
    ensures
        (os_error == Some(17i32) || os_error == Some(18i32)) ==> r == RenameStep::CopyInstead,
        !(os_error == Some(17i32) || os_error == Some(18i32)) ==> r == (if os_error == Some(5i32)
            && windows && attempt + 1 < RENAME_ATTEMPTS {
            RenameStep::RetryAfter((300 * (attempt + 1)) as u64)
        } else {
            RenameStep::Fail
        }),
{
    match os_error {
        Some(c) => {
            if c == 17 || c == 18 {
                RenameStep::CopyInstead
            } else if c == 5 && windows && attempt + 1 < RENAME_ATTEMPTS {
                RenameStep::RetryAfter(300u64 * (attempt as u64 + 1))
            } else {
                RenameStep::Fail
            }
        },
        None => RenameStep::Fail,
    }
}

/// What a path to remove as a link turned out to be.
#[derive(Debug, Clone, Copy, PartialEq, Eq, Structural)]
pub enum LinkKind {
    Symlink,
    Dir,
    File,
}

/// How a link is removed.
pub enum LinkRemoval {
    /// Nothing is there.
    Nothing,
    /// Remove the directory entry of a junction (Windows; retried).
    RemoveDir,
    RemoveFile,
    /// A real directory is never removed as a link (Unix).
    Refuse(EnvHiveError),
}

pub open spec fn real_dir_message(link: Seq<char>) -> Seq<char> {
    link + " 是真实目录而非链接，拒绝删除"@
}

/// Removing a link: nothing to do when nothing is there; on Windows a
/// symbolic link or directory is a junction, removed as a directory; on
/// Unix a symbolic link is removed as a file and a real directory is
/// refused; a file is removed.
pub fn link_removal(link: &str, kind: Option<LinkKind>, windows: bool) -> (r: LinkRemoval)
    ensures
        kind is None ==> r is Nothing,
        kind == Some(LinkKind::File) ==> r is RemoveFile,
        (kind == Some(LinkKind::Symlink) || kind == Some(LinkKind::Dir)) && windows ==> r is RemoveDir,
        kind == Some(LinkKind::Symlink) && !windows ==> r is RemoveFile,
        kind == Some(LinkKind::Dir) && !windows ==> (r matches LinkRemoval::Refuse(e) && e.kind
            == EnvHiveErrorKind::Link && e.message@ == real_dir_message(link@)),
{
    match kind {
        None => LinkRemoval::Nothing,
        Some(LinkKind::File) => LinkRemoval::RemoveFile,
        Some(k) => {
            if windows {
                LinkRemoval::RemoveDir
            } else if k == LinkKind::Symlink {
                LinkRemoval::RemoveFile
            } else {
                let mut m = chars_of(link);
                append_str(&mut m, " 是真实目录而非链接，拒绝删除");
                LinkRemoval::Refuse(EnvHiveError::new(EnvHiveErrorKind::Link, to_string(&m)))
            }
        },
    }
}

/// How a configured path refers to the home directory.
pub enum TildePath {
    /// `~`: the home directory itself.
    Home,
    /// `~/rest` or `~\rest`: `rest` under the home directory.
    UnderHome(String),
    /// Any other path, taken as it is.
    Plain,
}

/// Reads a leading `~` of a configured path (`~`, `~/…` and, for Windows
/// users, `~\…`).
pub fn tilde_path(path: &str) -> (r: TildePath)
    ensures
        path@ == "~"@ ==> r is Home,
        path@ != "~"@ && (starts_with(path@, "~/"@) || starts_with(path@, "~\\"@)) ==> (r matches TildePath::UnderHome(rest)
            && rest@ == path@.skip(2)),
        path@ != "~"@ && !starts_with(path@, "~/"@) && !starts_with(path@, "~\\"@) ==> r is Plain,
{
    let c = chars_of(path);
    if eq(&c, &chars_of("~")) {
        return TildePath::Home;
    }
    if starts_with_v(&c, &chars_of("~/")) || starts_with_v(&c, &chars_of("~\\")) {
        proof {
            reveal_strlit("~/");
            reveal_strlit("~\\");
        }
        return TildePath::UnderHome(to_string(&slice_of(&c, 2, c.len())));
    }
    TildePath::Plain
}

} // verus!
