//! The decisions of making a version the global default, and of dropping
//! the global default: resolve the version, check that it is installed,
//! write the global configuration, rebuild (or remove) the `current` link,
//! then bring the user environment up to date. When the link cannot be
//! changed, the configuration entry that was there before is put back, so
//! that the configuration never names a version the link does not point
//! to. The caller performs each action and reports its outcome as an event.

use vstd::prelude::*;

use crate::cli::ToolValue;
use crate::error::{EnvHiveError, EnvHiveErrorKind};
use crate::tool::{not_installed_message, switch_check};

verus! {

#[derive(Debug, Clone, Copy, PartialEq, Eq, Structural)]
pub enum GlobalPhase {
    Resolving,
    Checking,
    Writing,
    Linking,
    Restoring,
    Syncing,
    Finished,
}

/// The outcome of the work an action asked for.
pub enum GlobalEvent {
    /// The version the query resolved to.
    Resolved(Result<String, EnvHiveError>),
    /// Whether that version is installed.
    Checked(bool),
    /// The global configuration was changed; the entry the tool had before.
    Written(Result<Option<ToolValue>, EnvHiveError>),
    /// The `current` link was rebuilt or removed.
    Linked(Result<(), EnvHiveError>),
    /// The previous entry was put back (a failure here is only logged).
    Restored(Result<(), EnvHiveError>),
    /// The user environment was brought up to date.
    Synced(Result<(), EnvHiveError>),
}

/// The next thing to do.
pub enum GlobalAction {
    Resolve { query: String },
    CheckInstalled { version: String },
    /// Set the tool's global entry to `version`, or clear it.
    Write { version: Option<String> },
    /// Point the `current` link at `version`, or remove it.
    Link { version: Option<String> },
    /// Put the previous global entry back (clear it when there was none).
    Restore { old: Option<ToolValue> },
    Sync,
    /// The end: the version made global, nothing when the default was
    /// dropped, or the error. After a switch the caller announces the new
    /// version and records its use.
    Finish { result: Result<Option<String>, EnvHiveError> },
}

/// The state of one switch (or of dropping the default).
pub struct GlobalFlow {
    pub display: String,
    pub switching: bool,
    pub phase: GlobalPhase,
    pub version: String,
    pub old: Option<ToolValue>,
    pub error: Option<EnvHiveError>,
}

/// The event a phase waits for.
pub open spec fn global_event_fits(phase: GlobalPhase, ev: GlobalEvent) -> bool {
    match ev {
        GlobalEvent::Resolved(_) => phase == GlobalPhase::Resolving,
        GlobalEvent::Checked(_) => phase == GlobalPhase::Checking,
        GlobalEvent::Written(_) => phase == GlobalPhase::Writing,
        GlobalEvent::Linked(_) => phase == GlobalPhase::Linking,
        GlobalEvent::Restored(_) => phase == GlobalPhase::Restoring,
        GlobalEvent::Synced(_) => phase == GlobalPhase::Syncing,
    }
}

pub open spec fn opt_view(o: Option<String>) -> Option<Seq<char>> {
    match o {
        Some(t) => Some(t@),
        None => None,
    }
}

pub open spec fn ends_with_error(a: GlobalAction, e: EnvHiveError) -> bool {
    a matches GlobalAction::Finish { result } && result == Err::<Option<String>, EnvHiveError>(e)
}

impl GlobalFlow {
    /// The flow keeps its state consistent: a rollback holds the error that
    /// caused it.
    pub open spec fn wf(&self) -> bool {
        self.phase == GlobalPhase::Restoring ==> self.error is Some
    }

    /// Making the version that `query` names the global default of a tool
    /// shown as `display`; the query is resolved first.
    pub fn switch(display: String, query: String) -> (r: (GlobalFlow, GlobalAction))
        ensures
            r.0.wf(),
            r.0.phase == GlobalPhase::Resolving,
            r.0.switching,
            r.0.display@ == display@,
            r.1 matches GlobalAction::Resolve { query: q } && q@ == query@,
    {
        (
            GlobalFlow {
                display,
                switching: true,
                phase: GlobalPhase::Resolving,
                version: String::new(),
                old: None,
                error: None,
            },
            GlobalAction::Resolve { query },
        )
    }

    /// Dropping the global default of a tool: its entry is cleared first.
    pub fn unuse(display: String) -> (r: (GlobalFlow, GlobalAction))
        ensures
            r.0.wf(),
            r.0.phase == GlobalPhase::Writing,
            !r.0.switching,
            r.0.display@ == display@,
            r.1 matches GlobalAction::Write { version } && version is None,
    {
        (
            GlobalFlow {
                display,
                switching: false,
                phase: GlobalPhase::Writing,
                version: String::new(),
                old: None,
                error: None,
            },
            GlobalAction::Write { version: None },
        )
    }

    /// Whether `ev` is the outcome this flow waits for.
    pub fn accepts(&self, ev: &GlobalEvent) -> (r: bool)
        ensures
            r == global_event_fits(self.phase, *ev),
    {
        match ev {
            GlobalEvent::Resolved(_) => self.phase == GlobalPhase::Resolving,
            GlobalEvent::Checked(_) => self.phase == GlobalPhase::Checking,
            GlobalEvent::Written(_) => self.phase == GlobalPhase::Writing,
            GlobalEvent::Linked(_) => self.phase == GlobalPhase::Linking,
            GlobalEvent::Restored(_) => self.phase == GlobalPhase::Restoring,
            GlobalEvent::Synced(_) => self.phase == GlobalPhase::Syncing,
        }
    }

    fn finish(&mut self, result: Result<Option<String>, EnvHiveError>) -> (a: GlobalAction)
        ensures
            final(self).phase == GlobalPhase::Finished,
            a matches GlobalAction::Finish { result: r } && r == result,
            final(self).display == old(self).display,
            final(self).switching == old(self).switching,
            final(self).version == old(self).version,
    {
        self.phase = GlobalPhase::Finished;
        GlobalAction::Finish { result }
    }

    /// Takes the outcome of the last action and decides the next one.
    pub fn step(&mut self, ev: GlobalEvent) -> (a: GlobalAction)
        requires
            old(self).wf(),
            global_event_fits(old(self).phase, ev),
        ensures
            final(self).wf(),
            final(self).display == old(self).display,
            final(self).switching == old(self).switching,
            match ev {
                GlobalEvent::Resolved(Err(e)) => ends_with_error(a, e),
                GlobalEvent::Resolved(Ok(v)) => {
                    &&& final(self).phase == GlobalPhase::Checking
                    &&& final(self).version@ == v@
                    &&& a matches GlobalAction::CheckInstalled { version } && version@ == v@
                },
                GlobalEvent::Checked(installed) => if installed {
                    &&& final(self).phase == GlobalPhase::Writing
                    &&& final(self).version == old(self).version
                    &&& a matches GlobalAction::Write { version } && opt_view(version) == Some(
                        old(self).version@,
                    )
                } else {
                    &&& final(self).phase == GlobalPhase::Finished
                    &&& a matches GlobalAction::Finish { result: Err(e) } && e.kind
                        == EnvHiveErrorKind::NotInstalled && e.message@ == not_installed_message(
                        old(self).display@,
                        old(self).version@,
                    )
                },
                GlobalEvent::Written(Err(e)) => ends_with_error(a, e),
                GlobalEvent::Written(Ok(prev)) => {
                    &&& final(self).phase == GlobalPhase::Linking
                    &&& final(self).old == prev
                    &&& final(self).version == old(self).version
                    &&& a matches GlobalAction::Link { version } && opt_view(version) == (if old(
                        self,
                    ).switching {
                        Some(old(self).version@)
                    } else {
                        None
                    })
                },
                GlobalEvent::Linked(Err(e)) => {
                    &&& final(self).phase == GlobalPhase::Restoring
                    &&& final(self).error == Some(e)
                    &&& a matches GlobalAction::Restore { old: prev } && prev == old(self).old
                },
                GlobalEvent::Linked(Ok(())) => {
                    &&& final(self).phase == GlobalPhase::Syncing
                    &&& final(self).version == old(self).version
                    &&& a is Sync
                },
                GlobalEvent::Restored(_) => ends_with_error(a, old(self).error.unwrap()),
                GlobalEvent::Synced(Err(e)) => ends_with_error(a, e),
                GlobalEvent::Synced(Ok(())) => {
                    &&& final(self).phase == GlobalPhase::Finished
                    &&& a matches GlobalAction::Finish { result: Ok(v) } && opt_view(v) == (if old(
                        self,
                    ).switching {
                        Some(old(self).version@)
                    } else {
                        None
                    })
                },
            },
    {
        match ev {
            GlobalEvent::Resolved(Err(e)) => self.finish(Err(e)),
            GlobalEvent::Resolved(Ok(v)) => {
                self.phase = GlobalPhase::Checking;
                self.version = v.clone();
                GlobalAction::CheckInstalled { version: v }
            },
            GlobalEvent::Checked(installed) => {
                match switch_check(self.display.as_str(), self.version.as_str(), installed) {
                    Ok(()) => {
                        self.phase = GlobalPhase::Writing;
                        GlobalAction::Write { version: Some(self.version.clone()) }
                    },
                    Err(e) => self.finish(Err(e)),
                }
            },
            GlobalEvent::Written(Err(e)) => self.finish(Err(e)),
            GlobalEvent::Written(Ok(prev)) => {
                self.phase = GlobalPhase::Linking;
                self.old = prev;
                let version = if self.switching {
                    Some(self.version.clone())
                } else {
                    None
                };
                GlobalAction::Link { version }
            },
            GlobalEvent::Linked(Err(e)) => {
                self.phase = GlobalPhase::Restoring;
                self.error = Some(e);
                let old = self.old.take();
                GlobalAction::Restore { old }
            },
            GlobalEvent::Linked(Ok(())) => {
                self.phase = GlobalPhase::Syncing;
                GlobalAction::Sync
            },
            GlobalEvent::Restored(_) => {
                let e = self.error.take();
                match e {
                    Some(e) => self.finish(Err(e)),
                    None => self.finish(Ok(None)),
                }
            },
            GlobalEvent::Synced(Err(e)) => self.finish(Err(e)),
            GlobalEvent::Synced(Ok(())) => {
                let v = if self.switching {
                    Some(self.version.clone())
                } else {
                    None
                };
                self.finish(Ok(v))
            },
        }
    }
}

} // verus!
