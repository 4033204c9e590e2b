use envhive::error::EnvHiveErrorKind;
use envhive::tui_input::{
    clamp_selection, commit_input, confirm_key, input_key, key_command, remove_registry_entry, switch_tab, CommitAction,
    ConfirmOutcome, InputField, InputOutcome, Key, KeyCommand, PendingInput, TuiMode,
};

fn mode(tab: usize) -> TuiMode {
    TuiMode { tab, plugin_view: 0, mirror_view: 0, focus_versions: false, confirm_open: false, input_open: false }
}

#[test]
fn key_dispatch() {
    assert_eq!(key_command(mode(0), Key::Char('q')), KeyCommand::Quit);
    assert_eq!(key_command(mode(0), Key::Esc), KeyCommand::Quit);
    assert_eq!(key_command(mode(0), Key::Char('3')), KeyCommand::SwitchTab(2));
    assert_eq!(key_command(mode(0), Key::Char('d')), KeyCommand::CycleDistribution);
    assert_eq!(key_command(mode(1), Key::Char('d')), KeyCommand::Delete);
    assert_eq!(key_command(mode(5), Key::Tab), KeyCommand::NextTab(6));
    assert_eq!(key_command(mode(6), Key::Tab), KeyCommand::NextTab(0));
    assert_eq!(key_command(mode(3), Key::Tab), KeyCommand::ToggleFocus);
    assert_eq!(key_command(mode(1), Key::Char('m')), KeyCommand::TogglePluginView);
    assert_eq!(key_command(mode(2), Key::Char('m')), KeyCommand::Nothing);
    assert_eq!(key_command(mode(4), Key::Up), KeyCommand::MoveSel(-1));
    let mut m = mode(0);
    m.confirm_open = true;
    m.input_open = true;
    assert_eq!(key_command(m, Key::Char('q')), KeyCommand::Confirm(Key::Char('q')));
    m.confirm_open = false;
    assert_eq!(key_command(m, Key::Char('q')), KeyCommand::Input(Key::Char('q')));
    assert_eq!(switch_tab(0, 3), Some(3));
    assert_eq!(switch_tab(3, 3), None);
    assert_eq!(switch_tab(0, 9), None);
}

#[test]
fn input_box_editing() {
    let mut b = String::from("ab");
    assert!(matches!(input_key(&mut b, Key::Char('中')), InputOutcome::Editing));
    assert_eq!(b, "ab中");
    input_key(&mut b, Key::Backspace);
    assert_eq!(b, "ab");
    let mut e = String::new();
    input_key(&mut e, Key::Backspace);
    assert_eq!(e, "");
    let mut s = String::from("  x ");
    assert!(matches!(input_key(&mut s, Key::Enter), InputOutcome::Submit(ref v) if v == "x"));
    assert!(matches!(input_key(&mut s, Key::Esc), InputOutcome::Cancel));
}

fn pending() -> PendingInput {
    PendingInput { registry_name: None, mirror_tool: Some("npm".into()), mirror_name: None }
}

#[test]
fn commit_checks() {
    let urls = vec!["https://gitee.com/m.json".to_string()];
    let mut p = pending();
    assert!(matches!(commit_input(InputField::ProxyUrl, String::new(), &mut p, true, &urls), Ok(CommitAction::SetProxy(None))));
    let e = commit_input(InputField::CacheTtl, "5x".into(), &mut p, true, &urls).err().unwrap();
    assert_eq!(e.kind, EnvHiveErrorKind::Config);
    assert_eq!(e.message, "非法缓存 TTL: \"5x\"（示例: 12h / 3600 / -1 / 0）");
    assert!(matches!(commit_input(InputField::CacheTtl, "5h".into(), &mut p, true, &urls), Ok(CommitAction::SaveCacheTtl(ref t)) if t == "5h"));
    match commit_input(InputField::RegistryName, "gh".into(), &mut p, true, &urls) {
        Ok(CommitAction::NextInput { field, prompt, .. }) => {
            assert_eq!(field, InputField::RegistryUrl);
            assert_eq!(prompt, "添加插件仓库：索引 JSON 完整地址");
        }
        _ => panic!("expected next step"),
    }
    let dup = commit_input(InputField::RegistryUrl, "https://gitee.com/m.json/".into(), &mut p, true, &urls).err().unwrap();
    assert_eq!(dup.message, "该仓库地址已存在");
    assert!(p.registry_name.is_none());
    match commit_input(InputField::RegistryUrl, "https://github.com/m.json".into(), &mut p, true, &urls) {
        Ok(CommitAction::AddRegistry { name, url }) => {
            assert_eq!(name, "仓库");
            assert_eq!(url, "https://github.com/m.json");
        }
        _ => panic!("expected registry"),
    }
    match commit_input(InputField::MirrorName, "mine".into(), &mut p, true, &urls) {
        Ok(CommitAction::NextInput { prompt, .. }) => assert_eq!(prompt, "为 npm 添加自定义镜像源：地址"),
        _ => panic!("expected next step"),
    }
    match commit_input(InputField::MirrorUrl, "https://m/".into(), &mut p, true, &urls) {
        Ok(CommitAction::AddMirror { tool, name, url }) => {
            assert_eq!((tool.as_str(), name.as_str(), url.as_str()), ("npm", "mine", "https://m/"));
        }
        _ => panic!("expected mirror"),
    }
    let bad = commit_input(InputField::MirrorUrl, "m".into(), &mut p, true, &urls).err().unwrap();
    assert_eq!(bad.message, "镜像地址需以 http:// 或 https:// 开头");
}

#[test]
fn confirm_and_removal() {
    assert_eq!(confirm_key(Key::Char('Y')), ConfirmOutcome::Execute);
    assert_eq!(confirm_key(Key::Esc), ConfirmOutcome::Dismiss);
    assert_eq!(confirm_key(Key::Enter), ConfirmOutcome::Ignore);
    let mut one = vec!["a"];
    assert_eq!(remove_registry_entry(&mut one, 0).unwrap_err().message, "至少保留一个插件仓库");
    let mut two = vec!["a", "b"];
    assert_eq!(remove_registry_entry(&mut two, 5).unwrap(), false);
    assert_eq!(remove_registry_entry(&mut two, 0).unwrap(), true);
    assert_eq!(two, vec!["b"]);
    assert_eq!(clamp_selection(4, 3), 2);
    assert_eq!(clamp_selection(1, 3), 1);
    assert_eq!(clamp_selection(0, 0), 0);
}

#[test]
fn backspace_takes_back_typed_char() {
    for start in ["", "http://127.0.0.1", "代理"] {
        let mut b = start.to_string();
        assert!(matches!(input_key(&mut b, Key::Char('中')), InputOutcome::Editing));
        assert!(matches!(input_key(&mut b, Key::Backspace), InputOutcome::Editing));
        assert_eq!(b, start);
    }
}
