use envhive::error::EnvHiveErrorKind;
use envhive::settings::{set_registry_selected, update_config, RegistryAddress, RegistryEntry, Settings};

fn settings() -> Settings {
    Settings {
        cache_ttl: "12h".into(),
        registry_addresses: vec![RegistryAddress::Named(RegistryEntry { name: "gitee".into(), url: "https://gitee.com/m.json".into() })],
        registry_address: Some("https://old".into()),
        registry_selected: Some("https://gitee.com/m.json".into()),
        tool_path: "~/.envhive/tools".into(),
    }
}

fn entry(name: &str, url: &str) -> RegistryEntry {
    RegistryEntry { name: name.into(), url: url.into() }
}

#[test]
fn ttl_updates() {
    let mut c = settings();
    assert_eq!(update_config(&mut c, Some(" 3600 ".into()), None, None).unwrap(), true);
    assert_eq!(c.cache_ttl, "3600");
    assert_eq!(update_config(&mut c, Some("3600".into()), None, None).unwrap(), false);
    assert!(update_config(&mut c, Some("-1".into()), None, None).unwrap());
    let e = update_config(&mut c, Some("abc".into()), None, None).unwrap_err();
    assert_eq!(e.kind, EnvHiveErrorKind::Config);
    assert_eq!(e.message, "非法缓存 TTL: \"abc\"（示例: 12h / 3600 / -1 / 0）");
    assert_eq!(c.cache_ttl, "-1");
    assert!(update_config(&mut c, Some("12x".into()), None, None).is_ok());
}

#[test]
fn registry_entries_cleaned() {
    let mut c = settings();
    let es = vec![entry(" github ", " https://github.com/m.json/ "), entry("dup", "https://github.com/m.json"), entry("", "  ")];
    assert!(update_config(&mut c, None, Some(es), None).unwrap());
    assert_eq!(c.registry_addresses.len(), 1);
    match &c.registry_addresses[0] {
        RegistryAddress::Named(e) => {
            assert_eq!(e.name, "github");
            assert_eq!(e.url, "https://github.com/m.json");
        }
        _ => panic!("named expected"),
    }
    assert!(c.registry_address.is_none());
    assert!(c.registry_selected.is_none());
    let bad = update_config(&mut c, None, Some(vec![entry("x", "ftp://x")]), None).unwrap_err();
    assert_eq!(bad.message, "插件仓库地址需以 http:// 或 https:// 开头");
    let noname = update_config(&mut c, None, Some(vec![entry(" ", "https://x")]), None).unwrap_err();
    assert_eq!(noname.message, "插件仓库名不能为空（如「官方gitee」「官方github」）");
    let none = update_config(&mut c, None, Some(vec![entry("a", " / ")]), None).unwrap_err();
    assert_eq!(none.message, "至少需要配置一个插件仓库地址");
}

#[test]
fn storage_path_and_selection() {
    let mut c = settings();
    assert_eq!(update_config(&mut c, None, None, Some("  ".into())).unwrap_err().message, "存储路径不能为空");
    assert!(update_config(&mut c, None, None, Some(" D:/tools ".into())).unwrap());
    assert_eq!(c.tool_path, "D:/tools");
    assert!(!set_registry_selected(&mut c, Some("https://gitee.com/m.json/".into())));
    assert!(set_registry_selected(&mut c, Some("  ".into())));
    assert!(c.registry_selected.is_none());
    assert!(!set_registry_selected(&mut c, None));
}
