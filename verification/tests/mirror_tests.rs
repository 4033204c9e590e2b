use envhive::tui_tabs::current_mirror_of;
use envhive::error::EnvHiveErrorKind;
use envhive::mirror::{apply, display, effective_mirror, set_download_mirror, set_tool_mirror, DownloadMirrorConfig};
use envhive::strmap::StrMap;
use envhive::tool::MirrorCandidate;

fn cfg(enable: bool) -> DownloadMirrorConfig {
    DownloadMirrorConfig { enable, rules: StrMap::new() }
}

#[test]
fn test_disabled() {
    let c = cfg(false);
    assert_eq!(
        apply(Some(&c), "https://nodejs.org/dist/v22.0.0/node-v22-win-x64.zip"),
        "https://nodejs.org/dist/v22.0.0/node-v22-win-x64.zip"
    );
}

#[test]
fn test_node_mirror() {
    let c = cfg(true);
    assert_eq!(
        apply(Some(&c), "https://nodejs.org/dist/v22.0.0/node-v22-win-x64.zip"),
        "https://npmmirror.com/mirrors/node/v22.0.0/node-v22-win-x64.zip"
    );
}

#[test]
fn test_go_mirror() {
    let c = cfg(true);
    assert_eq!(
        apply(Some(&c), "https://dl.google.com/go/go1.24.1.windows-amd64.zip.sha256"),
        "https://mirrors.aliyun.com/golang/go1.24.1.windows-amd64.zip.sha256"
    );
}

#[test]
fn test_rust_mirror() {
    let c = cfg(true);
    assert_eq!(
        apply(Some(&c), "https://static.rust-lang.org/dist/channel-rust-stable.toml"),
        "https://rsproxy.cn/dist/channel-rust-stable.toml"
    );
}

#[test]
fn test_user_rule_overrides() {
    let mut c = cfg(true);
    c.rules.insert("https://nodejs.org/dist/".into(), "https://custom.example/node/".into());
    assert_eq!(
        apply(Some(&c), "https://nodejs.org/dist/index.json"),
        "https://custom.example/node/index.json"
    );
}

#[test]
fn test_no_match() {
    let c = cfg(true);
    assert_eq!(apply(Some(&c), "https://api.adoptium.net/v3/foo"), "https://api.adoptium.net/v3/foo");
}

#[test]
fn apply_without_config_is_identity() {
    assert_eq!(apply(None, "https://nodejs.org/dist/x"), "https://nodejs.org/dist/x");
}

#[test]
fn display_shows_mirror_target() {
    let c = cfg(true);
    assert_eq!(
        display("https://nodejs.org/dist/a", Some(&c)),
        "https://nodejs.org/dist/a（镜像 → https://npmmirror.com/mirrors/node/a）"
    );
    assert_eq!(display("https://example.com/a", Some(&c)), "https://example.com/a");
}

fn cand(name: &str, from: &str, to: &str) -> MirrorCandidate {
    MirrorCandidate { name: name.into(), from: from.into(), to: to.into() }
}

#[test]
fn effective_mirror_keeps_user_rules_first() {
    let mut c = cfg(true);
    c.rules.insert("https://a/".into(), "https://user/".into());
    let ms = vec![cand("m", "https://a/", "https://tool/"), cand("m", "https://b/", "https://tool-b/")];
    let e = effective_mirror(&c, &ms);
    assert!(e.enable);
    assert_eq!(e.rules.get("https://a/").map(|s| s.as_str()), Some("https://user/"));
    assert_eq!(e.rules.get("https://b/").map(|s| s.as_str()), Some("https://tool-b/"));
    assert_eq!(apply(Some(&e), "https://b/x.zip"), "https://tool-b/x.zip");
}

#[test]
fn set_tool_mirror_selects_and_clears() {
    let ms = vec![
        cand("官方", "https://dlcdn/", "https://dlcdn/"),
        cand("aliyun", "https://dlcdn/", "https://ali/dl/"),
        cand("aliyun", "https://archive/", "https://ali/ar/"),
    ];
    let mut c = cfg(true);
    set_tool_mirror(&mut c, "maven", &ms, Some("aliyun")).unwrap();
    assert_eq!(c.rules.len(), 2);
    assert_eq!(c.rules.get("https://archive/").map(|s| s.as_str()), Some("https://ali/ar/"));
    set_tool_mirror(&mut c, "maven", &ms, Some("官方")).unwrap();
    assert_eq!(c.rules.len(), 0);
    let e = set_tool_mirror(&mut c, "maven", &ms, Some("tuna")).unwrap_err();
    assert_eq!(e.kind, EnvHiveErrorKind::Config);
    assert_eq!(e.message, "工具 maven 未声明镜像「tuna」（可选：官方 / aliyun / aliyun）");
    let none: Vec<MirrorCandidate> = Vec::new();
    let e2 = set_tool_mirror(&mut c, "go", &none, None).unwrap_err();
    assert_eq!(e2.message, "工具 go 未声明下载加速镜像（插件 TOOL.mirrors 缺失）");
}

#[test]
fn set_download_mirror_replaces_rules() {
    let mut c = cfg(false);
    let mut r = StrMap::new();
    r.insert("https://x/".into(), "https://y/".into());
    set_download_mirror(&mut c, true, Some(r));
    assert!(c.enable);
    assert_eq!(c.rules.len(), 1);
    set_download_mirror(&mut c, false, None);
    assert!(!c.enable);
    assert_eq!(c.rules.len(), 1);
}

#[test]
fn chosen_mirror_is_the_one_in_use() {
    let ms = vec![
        MirrorCandidate { name: "官方".into(), from: "https://nodejs.org/dist/".into(), to: "https://nodejs.org/dist/".into() },
        MirrorCandidate { name: "npmmirror".into(), from: "https://nodejs.org/dist/".into(), to: "https://npmmirror.com/mirrors/node/".into() },
        MirrorCandidate { name: "tuna".into(), from: "https://nodejs.org/dist/".into(), to: "https://mirrors.tuna.tsinghua.edu.cn/nodejs-release/".into() },
    ];
    let mut cfg = DownloadMirrorConfig { enable: true, rules: StrMap::new() };
    set_tool_mirror(&mut cfg, "nodejs", &ms, Some("tuna")).unwrap();
    assert_eq!(current_mirror_of(Some(&ms), &cfg.rules).as_deref(), Some("tuna"));
    set_tool_mirror(&mut cfg, "nodejs", &ms, Some("npmmirror")).unwrap();
    assert_eq!(current_mirror_of(Some(&ms), &cfg.rules).as_deref(), Some("npmmirror"));
    set_tool_mirror(&mut cfg, "nodejs", &ms, None).unwrap();
    assert_eq!(current_mirror_of(Some(&ms), &cfg.rules), None);
}
