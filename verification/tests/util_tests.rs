use envhive::user_path::{ensure_bin_in_path, remove_from_user_path, update_user_path};
use envhive::error::EnvHiveErrorKind;
use envhive::text::replace;
use envhive::util::{tilde_path, TildePath, after_rename_error, link_removal, output_text, safe_component, CompressKind, LinkKind, LinkRemoval, RenameStep};

#[test]
fn safe_component_rejects_traversal() {
    assert!(safe_component("nodejs"));
    assert!(safe_component("22.11.0"));
    assert!(!safe_component(""));
    assert!(!safe_component("."));
    assert!(!safe_component(".."));
    assert!(!safe_component("a/b"));
    assert!(!safe_component(r"a\b"));
    assert!(!safe_component("D:evil"));
    assert!(!safe_component("a\0b"));
}

#[test]
fn compress_kind_from_url() {
    assert_eq!(CompressKind::from_url("https://x.com/node-v22-win-x64.ZIP"), CompressKind::Zip);
    assert_eq!(CompressKind::from_url("https://x.com/go.tar.gz?sig=1"), CompressKind::TarGz);
    assert_eq!(CompressKind::from_url("https://example.com/dl/node-v22.0.0-win-x64.zip?token=abc"), CompressKind::Zip);
    assert_eq!(CompressKind::from_url("https://x.com/py.tar.xz#sha256=ab/cd"), CompressKind::TarXz);
    assert_eq!(CompressKind::from_url("https://x.com/dl?file=a.zip"), CompressKind::Binary);
    assert_eq!(CompressKind::from_url("https://x.com/a/go1.24.linux-amd64.tar.gz"), CompressKind::TarGz);
    assert_eq!(CompressKind::from_url("https://x.com/py.tgz"), CompressKind::TarGz);
    assert_eq!(CompressKind::from_url("https://x.com/py.tar.xz"), CompressKind::TarXz);
    assert_eq!(CompressKind::from_url("https://x.com/a.txz"), CompressKind::TarXz);
    assert_eq!(CompressKind::from_url("https://x.com/a.7z"), CompressKind::SevenZip);
    assert_eq!(CompressKind::from_url("https://github.com/r/releases/download/x/lua54"), CompressKind::Binary);
    assert_eq!(CompressKind::from_url("https://x.com/lua.exe"), CompressKind::Binary);
    assert_eq!(CompressKind::from_url("https://x.com/a.msi"), CompressKind::Unknown);
    assert!(CompressKind::Zip.is_supported());
    assert!(CompressKind::Binary.is_supported());
    assert!(!CompressKind::SevenZip.is_supported());
    assert!(!CompressKind::Unknown.is_supported());
    assert!(CompressKind::Binary.is_binary());
    assert!(!CompressKind::Zip.is_binary());
}

#[test]
fn output_text_joins_streams() {
    assert_eq!(output_text(" v1.0 \n", ""), "v1.0");
    assert_eq!(output_text("", " warn "), "warn");
    assert_eq!(output_text("out", "err\n"), "out\nerr");
    assert_eq!(output_text("  ", "\n"), "");
}

#[test]
fn user_path_update_puts_new_entries_first() {
    let current = r"C:\Windows;C:\Users\a\.envhive\tools\go\current\bin;;D:\bin\";
    let add = vec![r"C:\Users\a\.envhive\tools\node\current".to_string(), r"d:\BIN".to_string(), "  ".to_string()];
    let out = update_user_path(current, &add, r"C:\Users\a\.envhive\tools\");
    assert_eq!(out, r"C:\Users\a\.envhive\tools\node\current;C:\Windows;D:\bin\");
}

#[test]
fn user_path_remove_and_ensure() {
    let current = r"C:\Windows;C:\Users\a\.envhive\tools\go\current\bin; ;C:\tools";
    assert_eq!(remove_from_user_path(current, r"c:\users\a\.envhive\tools"), r"C:\Windows;C:\tools");
    let out = ensure_bin_in_path(current, r"C:\Users\a\.envhive\tools\node\current\", r"C:\Users\a\.envhive\tools");
    assert_eq!(out, r"C:\Users\a\.envhive\tools\node\current;C:\Windows;C:\tools");
    let again = ensure_bin_in_path(&out, r"C:\Users\a\.envhive\tools\node\current\", r"C:\Users\a\.envhive\tools");
    assert_eq!(again, out);
}

#[test]
fn rename_failures() {
    assert_eq!(after_rename_error(Some(18), false, 0), RenameStep::CopyInstead);
    assert_eq!(after_rename_error(Some(17), true, 4), RenameStep::CopyInstead);
    assert_eq!(after_rename_error(Some(5), true, 0), RenameStep::RetryAfter(300));
    assert_eq!(after_rename_error(Some(5), true, 3), RenameStep::RetryAfter(1200));
    assert_eq!(after_rename_error(Some(5), true, 4), RenameStep::Fail);
    assert_eq!(after_rename_error(Some(5), false, 0), RenameStep::Fail);
    assert_eq!(after_rename_error(None, true, 0), RenameStep::Fail);
}

#[test]
fn link_removal_by_kind() {
    assert!(matches!(link_removal("/x/current", None, false), LinkRemoval::Nothing));
    assert!(matches!(link_removal("/x/current", Some(LinkKind::File), true), LinkRemoval::RemoveFile));
    assert!(matches!(link_removal("/x/current", Some(LinkKind::Symlink), false), LinkRemoval::RemoveFile));
    assert!(matches!(link_removal("/x/current", Some(LinkKind::Dir), true), LinkRemoval::RemoveDir));
    match link_removal("/x/current", Some(LinkKind::Dir), false) {
        LinkRemoval::Refuse(e) => {
            assert_eq!(e.kind, EnvHiveErrorKind::Link);
            assert_eq!(e.message, "/x/current 是真实目录而非链接，拒绝删除");
        }
        _ => panic!("expected refusal"),
    }
}

#[test]
fn replace_all_occurrences() {
    assert_eq!(replace("{root}/bin:{root}/lib", "{root}", "/opt/j"), "/opt/j/bin:/opt/j/lib");
    assert_eq!(replace("none", "{root}", "/x"), "none");
    assert_eq!(replace("aaa", "aa", "b"), "ba");
    assert_eq!(replace("{roo", "{root}", "/x"), "{roo");
}

#[test]
fn tilde_paths() {
    assert!(matches!(tilde_path("~"), TildePath::Home));
    assert!(matches!(tilde_path("~/sdks"), TildePath::UnderHome(r) if r == "sdks"));
    assert!(matches!(tilde_path("~\\sdks\\a"), TildePath::UnderHome(r) if r == "sdks\\a"));
    assert!(matches!(tilde_path("/opt/sdks"), TildePath::Plain));
    assert!(matches!(tilde_path("~user/x"), TildePath::Plain));
}
