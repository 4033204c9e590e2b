use envhive::registry::cargo::{merge_cargo_config, parse_replace_with, parse_source_registry, CargoWriter};
use envhive::registry::go::GoWriter;
use envhive::registry::ini::{merge_ini, merge_ini_section, NpmWriter, PipWriter};
use envhive::registry::maven::{extract_first_mirror_url, merge_settings_xml};
use envhive::registry::nuget::{first_source_value, is_mergeable, merge_sources_xml};
use envhive::registry::proxy::{cleanup_legacy_env_vars, client_proxy_url, inject_tool_proxy, validate_proxy_url, ProxyConfig};
use envhive::registry::{matching_preset, RegistryPreset};

#[test]
fn test_cargo_merge_keeps_other_sections() {
    let content = r#"
[build]
jobs = 4

[source.crates-io]
replace-with = "oldmirror"
"#;
    let merged = merge_cargo_config(content, "rsproxy", "https://rsproxy.cn/index", "sparse+https://rsproxy.cn/index/");
    assert!(merged.contains("[build]"));
    assert!(merged.contains("jobs = 4"));
    assert!(merged.contains("replace-with = \"rsproxy\""));
    assert!(merged.contains("[source.rsproxy]"));
    assert!(merged.contains("registry = \"sparse+https://rsproxy.cn/index/\""));
}

#[test]
fn test_cargo_parse_with_spaces() {
    let content = r#"
[source.crates-io]
replace-with = "rsproxy"

[source.rsproxy]
registry = "sparse+https://rsproxy.cn/index/"
"#;
    assert_eq!(parse_replace_with(content).as_deref(), Some("rsproxy"));
    assert_eq!(
        parse_source_registry(content, "rsproxy").as_deref(),
        Some("sparse+https://rsproxy.cn/index/")
    );
}

#[test]
fn test_cargo_parse_no_spaces() {
    let content = "[source.crates-io]\nreplace-with=\"ustc\"\n\n[source.ustc]\nregistry=\"sparse+https://mirrors.ustc.edu.cn/crates.io-index/\"\n";
    assert_eq!(parse_replace_with(content).as_deref(), Some("ustc"));
    assert_eq!(
        parse_source_registry(content, "ustc").as_deref(),
        Some("sparse+https://mirrors.ustc.edu.cn/crates.io-index/")
    );
}

#[test]
fn cargo_merge_into_empty_config() {
    let merged = merge_cargo_config("", "rsproxy", "https://rsproxy.cn/index", "sparse+https://rsproxy.cn/index/");
    assert_eq!(parse_replace_with(&merged).as_deref(), Some("rsproxy"));
    assert_eq!(parse_source_registry(&merged, "rsproxy").as_deref(), Some("sparse+https://rsproxy.cn/index/"));
}

#[test]
fn test_maven_insert() {
    let xml = "<settings>\n  <localRepository>/tmp/repo</localRepository>\n</settings>";
    let out = merge_settings_xml(xml, "aliyun", "https://maven.aliyun.com/repository/central");
    assert!(out.contains("<localRepository>"));
    assert!(out.contains("<mirrors>"));
    assert!(out.contains("maven.aliyun.com"));
    assert!(out.contains("</settings>"));
}

#[test]
fn test_maven_replace() {
    let xml = "<settings><mirrors><mirror><id>old</id><mirrorOf>central</mirrorOf><url>https://old</url></mirror></mirrors></settings>";
    let out = merge_settings_xml(xml, "aliyun", "https://maven.aliyun.com/repository/central");
    assert!(!out.contains("https://old"));
    assert!(out.contains("maven.aliyun.com"));
}

#[test]
fn test_maven_replace_valid_xml() {
    let xml = "<settings><mirrors><mirror><id>old</id><mirrorOf>central</mirrorOf><url>https://old</url></mirror></mirrors></settings>";
    let out = merge_settings_xml(xml, "aliyun", "https://maven.aliyun.com/repository/central");
    assert!(out.contains("</mirrors>"), "缺少 </mirrors> 闭合标签: {out}");
    assert!(out.contains("</settings>"), "缺少 </settings> 闭合标签: {out}");
    assert_eq!(out.matches("</mirrors>").count(), 1, "不应出现重复/断裂的 </mirrors>: {out}");
}

#[test]
fn maven_mirror_url_round_trip() {
    let out = merge_settings_xml("", "aliyun", "https://maven.aliyun.com/repository/central");
    assert_eq!(extract_first_mirror_url(&out).as_deref(), Some("https://maven.aliyun.com/repository/central"));
    assert_eq!(extract_first_mirror_url("<settings/>"), None);
}

#[test]
fn test_merge_ini_keeps_comments() {
    let content = "# my comment\nregistry=https://old.example\nproxy=http://p:8080\n\n";
    let merged = merge_ini(content, &[("registry", "https://new.example")], &[]);
    assert!(merged.contains("# my comment"));
    assert!(merged.contains("registry=https://new.example"));
    assert!(merged.contains("proxy=http://p:8080"));
}

#[test]
fn test_merge_ini_section() {
    let content = "[global]\nindex-url=https://old\n[install]\ntrusted-host=x\n";
    let merged = merge_ini_section(content, "global", &[("index-url", "https://new")], &[]);
    assert!(merged.contains("index-url=https://new"));
    assert!(merged.contains("[install]"));
    assert!(merged.contains("trusted-host=x"));
}

#[test]
fn merge_ini_exact_output() {
    let merged = merge_ini("a=1\n# c\nb=2\n", &[("b", "3"), ("d", "4")], &["a"]);
    assert_eq!(merged, "# c\nb=3\nd=4\n");
    assert_eq!(merge_ini("", &[], &[]), "");
}

#[test]
fn merge_ini_section_creates_section() {
    let merged = merge_ini_section("[install]\nx=1\n", "global", &[("index-url", "https://n")], &[]);
    assert_eq!(merged, "[install]\nx=1\n\n[global]\nindex-url=https://n\n");
    let merged2 = merge_ini_section("[global]\nindex-url=a\n[other]\nk=v\n", "GLOBAL", &[("timeout", "5")], &[]);
    // A key added where the section ends is written there only.
    assert_eq!(merged2, "[global]\nindex-url=a\ntimeout=5\n[other]\nk=v\n");
}

#[test]
fn test_extract_value() {
    let xml = r#"<packageSources><add key="nuget.org" value="https://api.nuget.org/v3/index.json" protocolVersion="3" /></packageSources>"#;
    assert_eq!(first_source_value(xml).as_deref(), Some("https://api.nuget.org/v3/index.json"));
}

#[test]
fn test_replace_source() {
    let xml = r#"<configuration><packageSources><add key="old" value="https://old" /></packageSources></configuration>"#;
    let out = merge_sources_xml(xml, "tuna", "https://mirrors.tuna.tsinghua.edu.cn/nuget/v3/index.json");
    assert!(!out.contains("https://old"));
    assert!(out.contains("mirrors.tuna.tsinghua.edu.cn"));
}

#[test]
fn test_insert_sources_section() {
    let xml = "<configuration></configuration>";
    let out = merge_sources_xml(xml, "tuna", "https://mirrors.tuna.tsinghua.edu.cn/nuget/v3/index.json");
    assert!(out.contains("<packageSources>"));
    assert!(out.contains("mirrors.tuna.tsinghua.edu.cn"));
}

#[test]
fn nuget_replace_then_read_back() {
    let xml = r#"<configuration><packageSources><add key="old" value="https://old" /></packageSources></configuration>"#;
    let out = merge_sources_xml(xml, "tuna", "https://t/index.json");
    assert_eq!(first_source_value(&out).as_deref(), Some("https://t/index.json"));
}

fn preset(tool: &str, name: &str, url: &str) -> RegistryPreset {
    RegistryPreset { tool: tool.into(), name: name.into(), url: url.into(), extra: Vec::new() }
}

#[test]
fn npm_and_pip_writers() {
    let npm = NpmWriter;
    assert_eq!(npm.tool_name(), "npm");
    assert_eq!(npm.current_url("# x\n registry= https://r.example \n").as_deref(), Some("https://r.example"));
    let mut p = preset("npm", "taobao", "https://registry.npmmirror.com");
    p.extra.push(("disturl".into(), "https://d".into()));
    assert_eq!(npm.merged_config("registry=https://old\n", &p), "registry=https://registry.npmmirror.com\ndisturl=https://d\n");
    let pip = PipWriter;
    assert_eq!(pip.current_url("[global]\nindex-url=https://pypi.tuna/simple\n").as_deref(), Some("https://pypi.tuna/simple"));
    let pp = preset("pip", "tuna", "https://pypi.tuna/simple");
    assert_eq!(pip.merged_config("", &pp), "\n[global]\nindex-url=https://pypi.tuna/simple\n");
}

#[test]
fn go_writer_values() {
    let g = GoWriter;
    assert_eq!(g.env_value(true, "https://goproxy.cn,direct\n").as_deref(), Some("https://goproxy.cn,direct"));
    assert_eq!(g.env_value(true, "<nil>"), None);
    assert_eq!(g.env_value(false, "x"), None);
    let off = preset("go", "official", "https://proxy.golang.org");
    assert_eq!(g.proxy_value(&off), "https://proxy.golang.org,direct");
    let cn = preset("go", "goproxy.cn", "https://goproxy.cn,direct");
    assert_eq!(g.env_assignment(&cn), "GOPROXY=https://goproxy.cn,direct");
    assert!(g.verify(Some("https://goproxy.cn,direct"), &cn));
    assert!(!g.verify(None, &cn));
    let presets = vec![off, cn];
    assert_eq!(g.matching_preset(&presets, "https://goproxy.cn,direct").as_deref(), Some("goproxy.cn"));
}

#[test]
fn matching_preset_by_url_containment() {
    let presets = vec![preset("npm", "a", "https://a.example"), preset("npm", "b", "https://b.example/npm")];
    assert_eq!(matching_preset(&presets, &"npm".to_string(), &"https://b.example/npm/".to_string()).as_deref(), Some("b"));
    assert_eq!(matching_preset(&presets, &"pip".to_string(), &"https://a.example".to_string()), None);
}

#[test]
fn proxy_url_validation() {
    assert!(validate_proxy_url("http://127.0.0.1:7890"));
    assert!(validate_proxy_url("socks5://h:1"));
    assert!(!validate_proxy_url("ftp://h"));
    let off = ProxyConfig { enable: false, url: Some("http://p".into()) };
    assert!(client_proxy_url(&off).unwrap().is_none());
    let bad = ProxyConfig { enable: true, url: Some("p:1".into()) };
    assert_eq!(client_proxy_url(&bad).unwrap_err().message, "代理地址无效: p:1");
    let good = ProxyConfig { enable: true, url: Some("http://p:1".into()) };
    assert_eq!(client_proxy_url(&good).unwrap().as_deref(), Some("http://p:1"));
}

#[test]
fn proxy_injection_writes_npm_and_pip() {
    let on = ProxyConfig { enable: true, url: Some("http://p:1".into()) };
    let w = inject_tool_proxy(&on, "", false, "", false);
    assert_eq!(w.npm.as_deref(), Some("proxy=http://p:1\nhttps-proxy=http://p:1\nstrict-ssl=false\n"));
    assert_eq!(w.pip.as_deref(), Some("\n[global]\nproxy=http://p:1\n"));
    assert_eq!(w.affected, vec!["npm".to_string(), "pip".to_string()]);
    let off = ProxyConfig { enable: false, url: None };
    let w2 = inject_tool_proxy(&off, "", false, "", false);
    assert!(w2.npm.is_none());
    assert_eq!(w2.pip.as_deref(), Some("\n[global]\n"));
    assert_eq!(w2.affected, vec!["pip".to_string()]);
    let on_no_url = ProxyConfig { enable: true, url: None };
    let w3 = inject_tool_proxy(&on_no_url, "a=1\n", true, "", true);
    assert!(w3.npm.is_none() && w3.pip.is_none() && w3.affected.is_empty());
}

#[test]
fn legacy_proxy_cleanup_decision() {
    let cfg = ProxyConfig { enable: true, url: Some("http://p:1".into()) };
    assert!(cleanup_legacy_env_vars(&cfg, Some("http://p:1")));
    assert!(cleanup_legacy_env_vars(&cfg, Some("")));
    assert!(!cleanup_legacy_env_vars(&cfg, Some("http://mine:3128")));
    assert!(!cleanup_legacy_env_vars(&cfg, None));
    let no_url = ProxyConfig { enable: false, url: None };
    assert!(!cleanup_legacy_env_vars(&no_url, Some("")));
}

#[test]
fn npm_preset_reads_back() {
    let p = RegistryPreset {
        tool: "npm".into(),
        name: "npmmirror".into(),
        url: " https://registry.npmmirror.com/ ".into(),
        extra: vec![("fund".into(), "false".into())],
    };
    for content in [
        "",
        "# comment\nregistry = https://old\nproxy=http://p\n",
        "fund=true\r\nregistry=https://old\r\n",
        "a=1\nregistry=https://x\nregistry=https://y\n",
    ] {
        let merged = NpmWriter.merged_config(content, &p);
        assert_eq!(NpmWriter.current_url(&merged).as_deref(), Some("https://registry.npmmirror.com/"));
    }
}

#[test]
fn pip_preset_reads_back() {
    let p = RegistryPreset {
        tool: "pip".into(),
        name: "tuna".into(),
        url: "https://pypi.tuna.tsinghua.edu.cn/simple".into(),
        extra: vec![("trusted-host".into(), "pypi.tuna.tsinghua.edu.cn".into())],
    };
    for content in [
        "",
        "[global]\nindex-url = https://old/simple\ntimeout = 60\n",
        "[global]\ntimeout=5\n[install]\nuser=true\n",
        "# top\n[other]\nx=1\n",
    ] {
        let merged = PipWriter.merged_config(content, &p);
        assert_eq!(
            PipWriter.current_url(&merged).as_deref(),
            Some("https://pypi.tuna.tsinghua.edu.cn/simple")
        );
    }
}

#[test]
fn cargo_preset_reads_back() {
    let p = RegistryPreset {
        tool: "cargo".into(),
        name: "rsproxy".into(),
        url: "https://rsproxy.cn/crates.io-index".into(),
        extra: vec![("sparse".into(), "sparse+https://rsproxy.cn/index/".into())],
    };
    for content in [
        "",
        "[build]\njobs = 4\n",
        "[source.crates-io]\nreplace-with = \"oldmirror\"\n\n[source.oldmirror]\nregistry = \"https://old\"\n",
        "[source.rsproxy]\nregistry = \"https://stale\"\n[net]\ngit-fetch-with-cli = true",
        "[source.crates-io]\r\n# keep\r\n[http]\r\ncheck-revoke = false\r\n",
    ] {
        let merged = CargoWriter.merged_config(content, &p);
        assert_eq!(CargoWriter.current_url(&merged).as_deref(), Some("sparse+https://rsproxy.cn/index/"));
    }
}

#[test]
fn go_written_proxy_verifies() {
    for (name, url) in [
        ("goproxy.cn", "https://goproxy.cn,direct"),
        ("aliyun", "https://mirrors.aliyun.com/goproxy/"),
        ("official", "https://proxy.golang.org"),
    ] {
        let p = RegistryPreset { tool: "go".into(), name: name.into(), url: url.into(), extra: vec![] };
        let written = GoWriter.proxy_value(&p);
        assert!(GoWriter.verify(Some(&written), &p));
    }
}

#[test]
fn section_merge_writes_each_key_once_inside() {
    assert_eq!(merge_ini_section("[s]", "s", &[("k", "v")], &[]), "[s]\nk=v\n");
    assert_eq!(
        merge_ini_section("[global]\nindex-url=https://old\n[install]\ntrusted-host=x\n", "global", &[("index-url", "https://new")], &[]),
        "[global]\nindex-url=https://new\n[install]\ntrusted-host=x\n"
    );
    assert_eq!(
        merge_ini_section("[global]\ntimeout=5\n[install]\nuser=true\n", "global", &[("index-url", "https://new")], &[]),
        "[global]\ntimeout=5\nindex-url=https://new\n[install]\nuser=true\n"
    );
    assert_eq!(
        merge_ini_section("[other]\nx=1\n", "global", &[("index-url", "https://new")], &[]),
        "[other]\nx=1\n\n[global]\nindex-url=https://new\n"
    );
}

#[test]
fn nuget_source_goes_inside_package_sources() {
    let r = merge_sources_xml("<configuration><packageSources></packageSources></configuration>", "tuna", "https://x.example/index.json");
    let add = r#"<add key="tuna" value="https://x.example/index.json" protocolVersion="3" />"#;
    assert_eq!(r.matches(add).count(), 1);
    assert!(r.find("<packageSources>").unwrap() < r.find(add).unwrap());
    assert!(r.find(add).unwrap() < r.find("</packageSources>").unwrap());
    assert_eq!(first_source_value(&r).as_deref(), Some("https://x.example/index.json"));
}

#[test]
fn nuget_mergeable_inputs() {
    assert!(is_mergeable("<configuration></configuration>"));
    assert!(is_mergeable("<packageSources><add key=\"a\" value=\"b\" /></packageSources>"));
    assert!(is_mergeable("<packageSources></packageSources>"));
    assert!(!is_mergeable("<packageSources>"));
}

#[test]
fn cargo_merging_twice_changes_nothing_more() {
    let contents = [
        "",
        "[build]\njobs = 4\n",
        "[source.crates-io]\nreplace-with = \"ustc\"\n\n[source.ustc]\nregistry = \"sparse+https://mirrors.ustc.edu.cn/crates.io-index/\"\n",
        "[source.crates-io]\n[source.rsproxy]\n[net]\nretry = 2",
        "[source.rsproxy]\nindex = \"x\"\n\n",
    ];
    for c in contents {
        let once = merge_cargo_config(c, "rsproxy", "https://rsproxy.cn/index", "sparse+https://rsproxy.cn/index/");
        let twice = merge_cargo_config(&once, "rsproxy", "https://rsproxy.cn/index", "sparse+https://rsproxy.cn/index/");
        assert_eq!(twice, once, "content: {c:?}");
    }
}

#[test]
fn cargo_merging_drops_one_of_two_trailing_empty_lines() {
    let c = "[source.crates-io]\nreplace-with = \"rsproxy\"\n[source.rsproxy]\nregistry = \"sparse+https://rsproxy.cn/index/\"\n\n\n";
    let once = merge_cargo_config(c, "rsproxy", "https://rsproxy.cn/index", "sparse+https://rsproxy.cn/index/");
    assert!(once.ends_with("\n\n"));
    let twice = merge_cargo_config(&once, "rsproxy", "https://rsproxy.cn/index", "sparse+https://rsproxy.cn/index/");
    assert_eq!(format!("{twice}\n"), once);
}
