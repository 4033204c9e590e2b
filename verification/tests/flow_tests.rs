use envhive::cli::ToolValue;
use envhive::global_flow::{GlobalAction, GlobalEvent, GlobalFlow, GlobalPhase};
use envhive::error::{EnvHiveError, EnvHiveErrorKind};
use envhive::install_flow::{ExtraFile, InstallAction, InstallEvent, InstallFlow, InstallPhase, Package};
use envhive::mirror::DownloadMirrorConfig;
use envhive::strmap::StrMap;
use envhive::util::CompressKind;

fn flow(enable_mirror: bool) -> InstallFlow {
    InstallFlow::new("nodejs".into(), "Node.js".into(), DownloadMirrorConfig { enable: enable_mirror, rules: StrMap::new() })
}

#[test]
fn already_installed_finishes_at_once() {
    let mut f = flow(false);
    let ev = InstallEvent::Resolved(Ok(("22.11.0".into(), true, "/t/nodejs/v-22.11.0".into())));
    assert!(f.accepts(&ev));
    match f.step(ev) {
        InstallAction::Finish { result: Ok(r), fresh, remove_archive } => {
            assert_eq!(r.version, "22.11.0");
            assert_eq!(r.path, "/t/nodejs/v-22.11.0");
            assert_eq!(r.message, "该版本已安装");
            assert!(!fresh && !remove_archive);
        }
        _ => panic!("expected finish"),
    }
    assert_eq!(f.phase, InstallPhase::Finished);
}

#[test]
fn mirrored_download_falls_back_once() {
    let mut f = flow(true);
    assert!(matches!(
        f.step(InstallEvent::Resolved(Ok(("22.0.0".into(), false, String::new())))),
        InstallAction::ResolvePackage { ref version } if version == "22.0.0"
    ));
    let pkg = Package {
        url: "https://nodejs.org/dist/v22.0.0/node-v22.0.0-linux-x64.tar.xz".into(),
        file_name: "node.tar.xz".into(),
        extra_files: vec![ExtraFile { url: "https://nodejs.org/dist/x.dll".into(), file_name: "x.dll".into(), checksum: None }],
    };
    match f.step(InstallEvent::Packaged(Ok(pkg))) {
        InstallAction::FetchChecksum { url, .. } => {
            assert_eq!(url, "https://npmmirror.com/mirrors/node/v22.0.0/node-v22.0.0-linux-x64.tar.xz")
        }
        _ => panic!("expected checksum fetch"),
    }
    assert!(f.mirrored);
    assert_eq!(f.kind, CompressKind::TarXz);
    match f.step(InstallEvent::ChecksumFetched(Ok(Some("sha256:ab".into())))) {
        InstallAction::Download { note, checksum, .. } => {
            assert!(note.is_none());
            assert_eq!(checksum.as_deref(), Some("sha256:ab"));
        }
        _ => panic!("expected download"),
    }
    let err = EnvHiveError::new(EnvHiveErrorKind::Network, "404".into());
    match f.step(InstallEvent::Downloaded(Err(err))) {
        InstallAction::Download { url, note, .. } => {
            assert_eq!(url, "https://nodejs.org/dist/v22.0.0/node-v22.0.0-linux-x64.tar.xz");
            assert_eq!(note.as_deref(), Some("镜像下载失败，已回退官方源"));
        }
        _ => panic!("expected fallback download"),
    }
    match f.step(InstallEvent::Downloaded(Ok(false))) {
        InstallAction::DownloadExtra { url, file_name, .. } => {
            assert_eq!(url, "https://npmmirror.com/mirrors/node/x.dll");
            assert_eq!(file_name, "x.dll");
        }
        _ => panic!("expected extra download"),
    }
    assert!(matches!(f.step(InstallEvent::ExtraDownloaded(Ok(()))), InstallAction::Install { kind: CompressKind::TarXz }));
    match f.step(InstallEvent::Installed(Ok("/t/nodejs/v-22.0.0".into()))) {
        InstallAction::Finish { result: Ok(r), fresh, remove_archive } => {
            assert_eq!(r.message, "Node.js 安装成功");
            assert!(fresh && remove_archive);
        }
        _ => panic!("expected finish"),
    }
}

#[test]
fn second_failure_and_unsupported_and_cancel() {
    let mut f = flow(true);
    f.step(InstallEvent::Resolved(Ok(("1.0".into(), false, String::new()))));
    let pkg = Package { url: "https://example.com/tool.msi".into(), file_name: "tool.msi".into(), extra_files: Vec::new() };
    match f.step(InstallEvent::Packaged(Ok(pkg))) {
        InstallAction::Finish { result: Err(e), .. } => {
            assert_eq!(e.kind, EnvHiveErrorKind::Unsupported);
            assert_eq!(e.message, "暂不支持下载 https://example.com/tool.msi（当前仅 zip / tar.gz / tar.xz）");
        }
        _ => panic!("expected unsupported"),
    }

    let mut g = flow(false);
    g.step(InstallEvent::Resolved(Ok(("1.0".into(), false, String::new()))));
    let pkg = Package { url: "https://example.com/tool.zip".into(), file_name: "tool.zip".into(), extra_files: Vec::new() };
    g.step(InstallEvent::Packaged(Ok(pkg)));
    assert!(!g.mirrored);
    g.step(InstallEvent::ChecksumFetched(Ok(None)));
    let err = EnvHiveError::new(EnvHiveErrorKind::Network, "timeout".into());
    match g.step(InstallEvent::Downloaded(Err(err))) {
        InstallAction::Finish { result: Err(e), remove_archive, .. } => {
            assert_eq!(e.message, "timeout");
            assert!(!remove_archive);
        }
        _ => panic!("no fallback without a mirror"),
    }

    let mut h = flow(false);
    h.step(InstallEvent::Resolved(Ok(("2.0".into(), false, String::new()))));
    let pkg = Package { url: "https://example.com/tool".into(), file_name: "tool".into(), extra_files: Vec::new() };
    h.step(InstallEvent::Packaged(Ok(pkg)));
    assert_eq!(h.kind, CompressKind::Binary);
    h.step(InstallEvent::ChecksumFetched(Ok(None)));
    assert!(!h.accepts(&InstallEvent::Installed(Ok(String::new()))));
    match h.step(InstallEvent::Downloaded(Ok(true))) {
        InstallAction::Finish { result: Err(e), remove_archive, .. } => {
            assert_eq!(e.kind, EnvHiveErrorKind::Cancelled);
            assert_eq!(e.message, "[nodejs] 2.0 安装已取消");
            assert!(remove_archive);
        }
        _ => panic!("expected cancellation"),
    }
}

fn err(kind: EnvHiveErrorKind, m: &str) -> EnvHiveError {
    EnvHiveError::new(kind, m.to_string())
}

#[test]
fn switch_runs_through_all_steps() {
    let (mut f, a) = GlobalFlow::switch("Node.js".into(), "22".into());
    assert!(matches!(a, GlobalAction::Resolve { ref query } if query == "22"));
    match f.step(GlobalEvent::Resolved(Ok("22.11.0".into()))) {
        GlobalAction::CheckInstalled { version } => assert_eq!(version, "22.11.0"),
        _ => panic!("expected check"),
    }
    match f.step(GlobalEvent::Checked(true)) {
        GlobalAction::Write { version } => assert_eq!(version.as_deref(), Some("22.11.0")),
        _ => panic!("expected write"),
    }
    match f.step(GlobalEvent::Written(Ok(None))) {
        GlobalAction::Link { version } => assert_eq!(version.as_deref(), Some("22.11.0")),
        _ => panic!("expected link"),
    }
    assert!(matches!(f.step(GlobalEvent::Linked(Ok(()))), GlobalAction::Sync));
    match f.step(GlobalEvent::Synced(Ok(()))) {
        GlobalAction::Finish { result: Ok(v) } => assert_eq!(v.as_deref(), Some("22.11.0")),
        _ => panic!("expected finish"),
    }
    assert_eq!(f.phase, GlobalPhase::Finished);
}

#[test]
fn switch_refuses_a_version_not_installed() {
    let (mut f, _) = GlobalFlow::switch("Node.js".into(), "22".into());
    f.step(GlobalEvent::Resolved(Ok("22.11.0".into())));
    match f.step(GlobalEvent::Checked(false)) {
        GlobalAction::Finish { result: Err(e) } => {
            assert_eq!(e.kind, EnvHiveErrorKind::NotInstalled);
            assert_eq!(e.message, "Node.js 22.11.0 尚未安装，请先安装再切换");
        }
        _ => panic!("expected failure"),
    }
}

#[test]
fn failed_link_restores_the_previous_entry() {
    let (mut f, _) = GlobalFlow::switch("Node.js".into(), "22".into());
    f.step(GlobalEvent::Resolved(Ok("22.11.0".into())));
    f.step(GlobalEvent::Checked(true));
    f.step(GlobalEvent::Written(Ok(Some(ToolValue::Plain("20.1.0".into())))));
    match f.step(GlobalEvent::Linked(Err(err(EnvHiveErrorKind::Link, "busy")))) {
        GlobalAction::Restore { old: Some(ToolValue::Plain(v)) } => assert_eq!(v, "20.1.0"),
        _ => panic!("expected restore"),
    }
    assert!(f.accepts(&GlobalEvent::Restored(Err(err(EnvHiveErrorKind::Io, "x")))));
    match f.step(GlobalEvent::Restored(Err(err(EnvHiveErrorKind::Io, "x")))) {
        GlobalAction::Finish { result: Err(e) } => {
            assert_eq!(e.kind, EnvHiveErrorKind::Link);
            assert_eq!(e.message, "busy");
        }
        _ => panic!("expected failure"),
    }
}

#[test]
fn unuse_clears_then_removes_the_link() {
    let (mut f, a) = GlobalFlow::unuse("Node.js".into());
    assert!(matches!(a, GlobalAction::Write { version: None }));
    assert!(!f.accepts(&GlobalEvent::Checked(true)));
    match f.step(GlobalEvent::Written(Ok(None))) {
        GlobalAction::Link { version } => assert_eq!(version, None),
        _ => panic!("expected link removal"),
    }
    match f.step(GlobalEvent::Linked(Err(err(EnvHiveErrorKind::Link, "held")))) {
        GlobalAction::Restore { old } => assert!(old.is_none()),
        _ => panic!("expected restore"),
    }
    f.step(GlobalEvent::Restored(Ok(())));
    let (mut g, _) = GlobalFlow::unuse("Node.js".into());
    g.step(GlobalEvent::Written(Ok(None)));
    g.step(GlobalEvent::Linked(Ok(())));
    match g.step(GlobalEvent::Synced(Ok(()))) {
        GlobalAction::Finish { result: Ok(v) } => assert_eq!(v, None),
        _ => panic!("expected finish"),
    }
}
