//! The decisions of an installation: resolve the version, build the
//! download from the plugin's package (through the download mirror), fetch
//! the checksum, download (falling back once to the official source when a
//! mirrored download fails), download companion files, then install. The
//! caller performs each action and reports its outcome as an event.

use vstd::prelude::*;

use crate::error::{EnvHiveError, EnvHiveErrorKind};
use crate::mirror::{apply, apply_spec, DownloadMirrorConfig};
use crate::text::{append_str, chars_of_string, eq, to_string};
use crate::tool::InstallResult;
use crate::util::{url_kind, CompressKind};

verus! {

/// A file to download: where from, the name it is kept under, and its
/// expected checksum text.
pub struct ExtraFile {
    pub url: String,
    pub file_name: String,
    pub checksum: Option<String>,
}

/// What a plugin gives for a version: the main download and companion files.
pub struct Package {
    pub url: String,
    pub file_name: String,
    pub extra_files: Vec<ExtraFile>,
}

#[derive(Debug, Clone, Copy, PartialEq, Eq, Structural)]
pub enum InstallPhase {
    Resolving,
    Packaging,
    Checksumming,
    Downloading,
    Extras,
    Installing,
    Finished,
}

/// The outcome of the work an action asked for.
pub enum InstallEvent {
    /// The version resolved, whether it is installed, and its directory.
    Resolved(Result<(String, bool, String), EnvHiveError>),
    Packaged(Result<Package, EnvHiveError>),
    ChecksumFetched(Result<Option<String>, EnvHiveError>),
    /// The main download finished; `true` when the user cancelled meanwhile.
    Downloaded(Result<bool, EnvHiveError>),
    ExtraDownloaded(Result<(), EnvHiveError>),
    /// Installed into the given directory.
    Installed(Result<String, EnvHiveError>),
}

/// The next thing to do.
pub enum InstallAction {
    ResolvePackage { version: String },
    FetchChecksum { version: String, url: String },
    /// `note` is shown with the progress when this is the fallback download.
    Download { url: String, file_name: String, checksum: Option<String>, note: Option<String> },
    DownloadExtra { url: String, file_name: String, checksum: Option<String> },
    /// A `Binary` kind is placed as it is; archives are extracted.
    Install { kind: CompressKind },
    /// The end: on a fresh installation the downloaded archive is removed and
    /// the use recorded; on cancellation the archive is removed.
    Finish { result: Result<InstallResult, EnvHiveError>, fresh: bool, remove_archive: bool },
}

/// The state of one installation.
pub struct InstallFlow {
    pub tool: String,
    pub display: String,
    pub mirror: DownloadMirrorConfig,
    pub phase: InstallPhase,
    pub version: String,
    pub url: String,
    pub original_url: String,
    pub mirrored: bool,
    pub retried: bool,
    pub kind: CompressKind,
    pub file_name: String,
    pub checksum: Option<String>,
    pub extras: Vec<ExtraFile>,
    pub next_extra: usize,
}

/// The event a phase waits for.
pub open spec fn event_fits(phase: InstallPhase, ev: InstallEvent) -> bool {
    match ev {
        InstallEvent::Resolved(_) => phase == InstallPhase::Resolving,
        InstallEvent::Packaged(_) => phase == InstallPhase::Packaging,
        InstallEvent::ChecksumFetched(_) => phase == InstallPhase::Checksumming,
        InstallEvent::Downloaded(_) => phase == InstallPhase::Downloading,
        InstallEvent::ExtraDownloaded(_) => phase == InstallPhase::Extras,
        InstallEvent::Installed(_) => phase == InstallPhase::Installing,
    }
}

pub open spec fn unsupported_message(url: Seq<char>) -> Seq<char> {
    "暂不支持下载 "@ + url + "（当前仅 zip / tar.gz / tar.xz）"@
}

pub open spec fn cancelled_message(tool: Seq<char>, version: Seq<char>) -> Seq<char> {
    "["@ + tool + "] "@ + version + " 安装已取消"@
}

pub open spec fn fallback_note() -> Seq<char> {
    "镜像下载失败，已回退官方源"@
}

pub open spec fn supported(k: CompressKind) -> bool {
    k == CompressKind::Zip || k == CompressKind::TarGz || k == CompressKind::TarXz || k
        == CompressKind::Binary
}

/// The action that follows a finished main download or companion file:
/// the next companion file (through the mirror), or the installation.
pub open spec fn after_downloads(f: InstallFlow, a: InstallAction) -> bool {
    if f.next_extra < f.extras@.len() {
        &&& f.phase == InstallPhase::Extras
        &&& a matches InstallAction::DownloadExtra { url, file_name, checksum } && {
            &&& url@ == apply_spec(Some(&f.mirror), f.extras@[f.next_extra as int].url@)
            &&& file_name@ == f.extras@[f.next_extra as int].file_name@
            &&& checksum == f.extras@[f.next_extra as int].checksum
        }
    } else {
        f.phase == InstallPhase::Installing && a == InstallAction::Install { kind: f.kind }
    }
}

pub open spec fn finishes_with_error(a: InstallAction, e: EnvHiveError) -> bool {
    a matches InstallAction::Finish { result, fresh, remove_archive } && result == Err::<
        InstallResult,
        EnvHiveError,
    >(e) && !fresh && !remove_archive
}

impl InstallFlow {
    /// A new installation of `tool` (shown as `display`) with the download
    /// mirror configuration in effect for it; the version is resolved first.
    pub fn new(tool: String, display: String, mirror: DownloadMirrorConfig) -> (f: InstallFlow)
        ensures
            f.phase == InstallPhase::Resolving,
            f.tool@ == tool@,
            f.display@ == display@,
            f.mirror == mirror,
    {
        InstallFlow {
            tool,
            display,
            mirror,
            phase: InstallPhase::Resolving,
            version: String::new(),
            url: String::new(),
            original_url: String::new(),
            mirrored: false,
            retried: false,
            kind: CompressKind::Unknown,
            file_name: String::new(),
            checksum: None,
            extras: Vec::new(),
            next_extra: 0,
        }
    }

    /// Whether `ev` is the outcome this installation waits for.
    pub fn accepts(&self, ev: &InstallEvent) -> (r: bool)
        ensures
            r == event_fits(self.phase, *ev),
    {
        match ev {
            InstallEvent::Resolved(_) => self.phase == InstallPhase::Resolving,
            InstallEvent::Packaged(_) => self.phase == InstallPhase::Packaging,
            InstallEvent::ChecksumFetched(_) => self.phase == InstallPhase::Checksumming,
            InstallEvent::Downloaded(_) => self.phase == InstallPhase::Downloading,
            InstallEvent::ExtraDownloaded(_) => self.phase == InstallPhase::Extras,
            InstallEvent::Installed(_) => self.phase == InstallPhase::Installing,
        }
    }

    fn fail(&mut self, e: EnvHiveError) -> (a: InstallAction)
        ensures
            final(self).phase == InstallPhase::Finished,
            finishes_with_error(a, e),
            final(self).tool == old(self).tool,
            final(self).version == old(self).version,
            final(self).mirror == old(self).mirror,
            final(self).extras == old(self).extras,
            final(self).next_extra == old(self).next_extra,
    {
        self.phase = InstallPhase::Finished;
        InstallAction::Finish { result: Err(e), fresh: false, remove_archive: false }
    }

    fn next_download(&mut self) -> (a: InstallAction)
        requires
            old(self).next_extra <= old(self).extras@.len(),
        ensures
            after_downloads(*final(self), a),
            final(self).mirror == old(self).mirror,
            final(self).extras == old(self).extras,
            final(self).next_extra == old(self).next_extra,
            final(self).kind == old(self).kind,
            final(self).tool == old(self).tool,
            final(self).version == old(self).version,
    {
        if self.next_extra < self.extras.len() {
            self.phase = InstallPhase::Extras;
            let ef = &self.extras[self.next_extra];
            let url = apply(Some(&self.mirror), ef.url.as_str());
            let checksum = match &ef.checksum {
                Some(c) => Some(c.clone()),
                None => None,
            };
            InstallAction::DownloadExtra { url, file_name: ef.file_name.clone(), checksum }
        } else {
            self.phase = InstallPhase::Installing;
            InstallAction::Install { kind: self.kind }
        }
    }

    /// Takes the outcome of the last action and decides the next one.
    pub fn step(&mut self, ev: InstallEvent) -> (a: InstallAction)
        requires
            event_fits(old(self).phase, ev),
            old(self).next_extra <= old(self).extras@.len(),
        ensures
            final(self).next_extra <= final(self).extras@.len(),
            final(self).tool == old(self).tool,
            final(self).mirror == old(self).mirror,
            match ev {
                InstallEvent::Resolved(Err(e)) => finishes_with_error(a, e),
                InstallEvent::Resolved(Ok((v, installed, dir))) => if installed {
                    &&& final(self).phase == InstallPhase::Finished
                    &&& a matches InstallAction::Finish { result: Ok(r), fresh, remove_archive } && {
                        &&& r.tool@ == old(self).tool@
                        &&& r.version@ == v@
                        &&& r.path@ == dir@
                        &&& r.message@ == "该版本已安装"@
                        &&& !fresh && !remove_archive
                    }
                } else {
                    &&& final(self).phase == InstallPhase::Packaging
                    &&& final(self).version@ == v@
                    &&& a matches InstallAction::ResolvePackage { version } && version@ == v@
                },
                InstallEvent::Packaged(Err(e)) => finishes_with_error(a, e),
                InstallEvent::Packaged(Ok(pkg)) => {
                    let u = apply_spec(Some(&old(self).mirror), pkg.url@);
                    let k = url_kind(u);
                    if supported(k) {
                        &&& final(self).phase == InstallPhase::Checksumming
                        &&& final(self).url@ == u
                        &&& final(self).original_url@ == pkg.url@
                        &&& final(self).mirrored == (u != pkg.url@)
                        &&& !final(self).retried
                        &&& final(self).kind == k
                        &&& final(self).file_name@ == pkg.file_name@
                        &&& final(self).extras == pkg.extra_files
                        &&& final(self).next_extra == 0
                        &&& a matches InstallAction::FetchChecksum { version, url } && version
                            == old(self).version && url@ == u
                    } else {
                        a matches InstallAction::Finish { result: Err(e), fresh, remove_archive }
                            && e.kind == EnvHiveErrorKind::Unsupported && e.message@
                            == unsupported_message(u) && !fresh && !remove_archive
                            && final(self).phase == InstallPhase::Finished
                    }
                },
                InstallEvent::ChecksumFetched(Err(e)) => finishes_with_error(a, e),
                InstallEvent::ChecksumFetched(Ok(c)) => {
                    &&& final(self).phase == InstallPhase::Downloading
                    &&& final(self).checksum == c
                    &&& a matches InstallAction::Download { url, file_name, checksum, note } && {
                        &&& url == old(self).url
                        &&& file_name == old(self).file_name
                        &&& checksum == c
                        &&& note is None
                    }
                },
                InstallEvent::Downloaded(Err(e)) => if old(self).mirrored && !old(self).retried {
                    &&& final(self).phase == InstallPhase::Downloading
                    &&& final(self).retried
                    &&& final(self).url == old(self).original_url
                    &&& a matches InstallAction::Download { url, file_name, checksum, note } && {
                        &&& url == old(self).original_url
                        &&& file_name == old(self).file_name
                        &&& checksum == old(self).checksum
                        &&& note matches Some(n) && n@ == fallback_note()
                    }
                } else {
                    finishes_with_error(a, e)
                },
                InstallEvent::Downloaded(Ok(cancelled)) => if cancelled {
                    &&& final(self).phase == InstallPhase::Finished
                    &&& a matches InstallAction::Finish { result: Err(e), fresh, remove_archive }
                        && e.kind == EnvHiveErrorKind::Cancelled && e.message@ == cancelled_message(
                        old(self).tool@,
                        old(self).version@,
                    ) && !fresh && remove_archive
                } else {
                    final(self).next_extra == 0 && final(self).extras == old(self).extras
                        && final(self).kind == old(self).kind && after_downloads(*final(self), a)
                },
                InstallEvent::ExtraDownloaded(Err(e)) => finishes_with_error(a, e),
                InstallEvent::ExtraDownloaded(Ok(())) => {
                    &&& old(self).next_extra < old(self).extras@.len() ==> final(self).next_extra
                        == old(self).next_extra + 1
                    &&& final(self).extras == old(self).extras
                    &&& final(self).kind == old(self).kind
                    &&& after_downloads(*final(self), a)
                },
                InstallEvent::Installed(Err(e)) => finishes_with_error(a, e),
                InstallEvent::Installed(Ok(dir)) => {
                    &&& final(self).phase == InstallPhase::Finished
                    &&& a matches InstallAction::Finish { result: Ok(r), fresh, remove_archive } && {
                        &&& r.tool@ == old(self).tool@
                        &&& r.version@ == old(self).version@
                        &&& r.path@ == dir@
                        &&& r.message@ == old(self).display@ + " 安装成功"@
                        &&& fresh && remove_archive
                    }
                },
            },
    {
        match ev {
            InstallEvent::Resolved(Err(e)) => self.fail(e),
            InstallEvent::Resolved(Ok((v, installed, dir))) => {
                if installed {
                    self.phase = InstallPhase::Finished;
                    let r = InstallResult {
                        tool: self.tool.clone(),
                        version: v,
                        path: dir,
                        message: to_string(&crate::text::chars_of("该版本已安装")),
                    };
                    InstallAction::Finish { result: Ok(r), fresh: false, remove_archive: false }
                } else {
                    self.phase = InstallPhase::Packaging;
                    self.version = v.clone();
                    InstallAction::ResolvePackage { version: v }
                }
            },
            InstallEvent::Packaged(Err(e)) => self.fail(e),
            InstallEvent::Packaged(Ok(pkg)) => {
                let u = apply(Some(&self.mirror), pkg.url.as_str());
                let k = CompressKind::from_url(u.as_str());
                if !k.is_supported() {
                    let mut m: Vec<char> = Vec::new();
                    append_str(&mut m, "暂不支持下载 ");
                    append_str(&mut m, u.as_str());
                    append_str(&mut m, "（当前仅 zip / tar.gz / tar.xz）");
                    return self.fail(EnvHiveError::new(EnvHiveErrorKind::Unsupported, to_string(&m)));
                }
                self.mirrored = !eq(&chars_of_string(&u), &chars_of_string(&pkg.url));
                self.url = u.clone();
                self.original_url = pkg.url;
                self.retried = false;
                self.kind = k;
                self.file_name = pkg.file_name;
                self.extras = pkg.extra_files;
                self.next_extra = 0;
                self.phase = InstallPhase::Checksumming;
                InstallAction::FetchChecksum { version: self.version.clone(), url: u }
            },
            InstallEvent::ChecksumFetched(Err(e)) => self.fail(e),
            InstallEvent::ChecksumFetched(Ok(c)) => {
                self.phase = InstallPhase::Downloading;
                let checksum = match &c {
                    Some(s) => Some(s.clone()),
                    None => None,
                };
                self.checksum = c;
                InstallAction::Download {
                    url: self.url.clone(),
                    file_name: self.file_name.clone(),
                    checksum,
                    note: None,
                }
            },
            InstallEvent::Downloaded(Err(e)) => {
                if self.mirrored && !self.retried {
                    self.retried = true;
                    self.url = self.original_url.clone();
                    let checksum = match &self.checksum {
                        Some(s) => Some(s.clone()),
                        None => None,
                    };
                    InstallAction::Download {
                        url: self.original_url.clone(),
                        file_name: self.file_name.clone(),
                        checksum,
                        note: Some(to_string(&crate::text::chars_of("镜像下载失败，已回退官方源"))),
                    }
                } else {
                    self.fail(e)
                }
            },
            InstallEvent::Downloaded(Ok(cancelled)) => {
                if cancelled {
                    self.phase = InstallPhase::Finished;
                    let mut m: Vec<char> = Vec::new();
                    append_str(&mut m, "[");
                    append_str(&mut m, self.tool.as_str());
                    append_str(&mut m, "] ");
                    append_str(&mut m, self.version.as_str());
                    append_str(&mut m, " 安装已取消");
                    let e = EnvHiveError::new(EnvHiveErrorKind::Cancelled, to_string(&m));
                    InstallAction::Finish { result: Err(e), fresh: false, remove_archive: true }
                } else {
                    self.next_extra = 0;
                    self.next_download()
                }
            },
            InstallEvent::ExtraDownloaded(Err(e)) => self.fail(e),
            InstallEvent::ExtraDownloaded(Ok(())) => {
                if self.next_extra < self.extras.len() {
                    self.next_extra = self.next_extra + 1;
                }
                self.next_download()
            },
            InstallEvent::Installed(Err(e)) => self.fail(e),
            InstallEvent::Installed(Ok(dir)) => {
                self.phase = InstallPhase::Finished;
                let mut m: Vec<char> = Vec::new();
                append_str(&mut m, self.display.as_str());
                append_str(&mut m, " 安装成功");
                let r = InstallResult {
                    tool: self.tool.clone(),
                    version: self.version.clone(),
                    path: dir,
                    message: to_string(&m),
                };
                InstallAction::Finish { result: Ok(r), fresh: true, remove_archive: true }
            },
        }
    }
}

} // verus!
