//! The error model: a structured kind, with a stable code, and a message.

use vstd::prelude::*;

verus! {

/// Structured error kinds; the front end chooses its hint by the code.
#[derive(Debug, Clone, Copy, PartialEq, Eq, Structural)]
pub enum EnvHiveErrorKind {
    /// Global configuration / configuration file error
    Config,
    /// File system error
    Io,
    /// Network / download error
    Network,
    /// Integrity check failed
    Checksum,
    /// Extraction failed
    Decompress,
    /// Tool not registered / not found
    ToolNotFound,
    /// Version not in the available list
    VersionNotFound,
    /// Fuzzy version resolution failed
    VersionResolve,
    /// Version not installed yet
    NotInstalled,
    /// Installation failed
    Install,
    /// Platform / archive format not supported
    Unsupported,
    /// Link / registry operation failed
    Link,
    /// Registry mirror configuration could not be written or verified
    Registry,
    /// Task cancelled by the user
    Cancelled,
    /// Other internal error
    Internal,
}

/// The code under which each kind is reported.
pub open spec fn kind_code(k: EnvHiveErrorKind) -> Seq<char> {
    match k {
        EnvHiveErrorKind::Config => "CONFIG_ERROR"@,
        EnvHiveErrorKind::Io => "IO_ERROR"@,
        EnvHiveErrorKind::Network => "NETWORK_ERROR"@,
        EnvHiveErrorKind::Checksum => "CHECKSUM_MISMATCH"@,
        EnvHiveErrorKind::Decompress => "DECOMPRESS_ERROR"@,
        EnvHiveErrorKind::ToolNotFound => "TOOL_NOT_FOUND"@,
        EnvHiveErrorKind::VersionNotFound => "VERSION_NOT_FOUND"@,
        EnvHiveErrorKind::VersionResolve => "VERSION_RESOLVE_ERROR"@,
        EnvHiveErrorKind::NotInstalled => "NOT_INSTALLED"@,
        EnvHiveErrorKind::Install => "INSTALL_ERROR"@,
        EnvHiveErrorKind::Unsupported => "UNSUPPORTED"@,
        EnvHiveErrorKind::Link => "LINK_ERROR"@,
        EnvHiveErrorKind::Registry => "REGISTRY_ERROR"@,
        EnvHiveErrorKind::Cancelled => "CANCELLED"@,
        EnvHiveErrorKind::Internal => "INTERNAL_ERROR"@,
    }
}

/// Each kind of error has a code of its own, so a caller can tell kinds
/// apart by their codes.
pub proof fn lemma_codes_distinct(k1: EnvHiveErrorKind, k2: EnvHiveErrorKind)
    requires
        k1 != k2,
    ensures
        kind_code(k1) != kind_code(k2),
{
    reveal_strlit("CONFIG_ERROR");
    reveal_strlit("IO_ERROR");
    reveal_strlit("NETWORK_ERROR");
    reveal_strlit("CHECKSUM_MISMATCH");
    reveal_strlit("DECOMPRESS_ERROR");
    reveal_strlit("TOOL_NOT_FOUND");
    reveal_strlit("VERSION_NOT_FOUND");
    reveal_strlit("VERSION_RESOLVE_ERROR");
    reveal_strlit("NOT_INSTALLED");
    reveal_strlit("INSTALL_ERROR");
    reveal_strlit("UNSUPPORTED");
    reveal_strlit("LINK_ERROR");
    reveal_strlit("REGISTRY_ERROR");
    reveal_strlit("CANCELLED");
    reveal_strlit("INTERNAL_ERROR");
    let a = kind_code(k1);
    let b = kind_code(k2);
    if a == b {
        assert(a.len() == b.len() && a[0] == b[0] && a[1] == b[1]);
    }
}

impl EnvHiveErrorKind {
    pub fn code(&self) -> (r: &'static str)
        ensures
            r@ == kind_code(*self),
    {
        match self {
            EnvHiveErrorKind::Config => "CONFIG_ERROR",
            EnvHiveErrorKind::Io => "IO_ERROR",
            EnvHiveErrorKind::Network => "NETWORK_ERROR",
            EnvHiveErrorKind::Checksum => "CHECKSUM_MISMATCH",
            EnvHiveErrorKind::Decompress => "DECOMPRESS_ERROR",
            EnvHiveErrorKind::ToolNotFound => "TOOL_NOT_FOUND",
            EnvHiveErrorKind::VersionNotFound => "VERSION_NOT_FOUND",
            EnvHiveErrorKind::VersionResolve => "VERSION_RESOLVE_ERROR",
            EnvHiveErrorKind::NotInstalled => "NOT_INSTALLED",
            EnvHiveErrorKind::Install => "INSTALL_ERROR",
            EnvHiveErrorKind::Unsupported => "UNSUPPORTED",
            EnvHiveErrorKind::Link => "LINK_ERROR",
            EnvHiveErrorKind::Registry => "REGISTRY_ERROR",
            EnvHiveErrorKind::Cancelled => "CANCELLED",
            EnvHiveErrorKind::Internal => "INTERNAL_ERROR",
        }
    }
}

/// An error: its kind, a message, and the text of the underlying cause if any.
#[derive(Debug)]
pub struct EnvHiveError {
    pub kind: EnvHiveErrorKind,
    pub message: String,
    pub source: Option<String>,
}

impl EnvHiveError {
    pub fn new(kind: EnvHiveErrorKind, message: String) -> (e: EnvHiveError)
        ensures
            e.kind == kind,
            e.message@ == message@,
            e.source is None,
    {
        EnvHiveError { kind, message, source: None }
    }

    /// An error caused by another one, whose text is kept.
    pub fn with_source(kind: EnvHiveErrorKind, message: String, source: String) -> (e:
        EnvHiveError)
        ensures
            e.kind == kind,
            e.message@ == message@,
            e.source matches Some(s) && s@ == source@,
    {
        EnvHiveError { kind, message, source: Some(source) }
    }

    pub fn code(&self) -> (r: &'static str)
        ensures
            r@ == kind_code(self.kind),
    {
        self.kind.code()
    }
}

} // verus!
