use envhive::cli::{parse_tool_value, stage_label, DownloadStage, ToolValue};
use envhive::error::EnvHiveErrorKind;
use envhive::term::{
    cell_width, display_width, on_off, pad_cells, shift, should_enable_mouse, truncate_cells, valid_ttl, MouseGuard,
};

#[test]
fn tool_value_plain_and_attrs() {
    let (n, v) = parse_tool_value(" nodejs = 22.11.0 ").unwrap();
    assert_eq!(n, "nodejs");
    assert!(matches!(v, ToolValue::Plain(ref s) if s == "22.11.0"));
    let (n2, v2) = parse_tool_value("java=21, vendor = openjdk ,,unlink=true").unwrap();
    assert_eq!(n2, "java");
    match v2 {
        ToolValue::Attrs { version, vendor, unlink } => {
            assert_eq!(version, "21");
            assert_eq!(vendor.as_deref(), Some("openjdk"));
            assert_eq!(unlink, Some(true));
        }
        _ => panic!("expected attributes"),
    }
}

#[test]
fn tool_value_errors() {
    let e = parse_tool_value("nodejs").unwrap_err();
    assert_eq!(e.kind, EnvHiveErrorKind::Config);
    assert_eq!(e.message, "--tool 格式应为 <name>=<version>，收到: nodejs");
    assert_eq!(parse_tool_value("=1").unwrap_err().message, "--tool 名称与版本不可为空: =1");
    assert_eq!(parse_tool_value("java=21,vendor").unwrap_err().message, "属性格式应为 key=value: vendor");
    assert_eq!(
        parse_tool_value("java=21, arch =x").unwrap_err().message,
        "未知属性 \" arch \"（支持 vendor / unlink）"
    );
}

#[test]
fn stage_labels() {
    assert_eq!(stage_label(DownloadStage::Resolving), "解析");
    assert_eq!(stage_label(DownloadStage::Downloading), "下载中");
    assert_eq!(stage_label(DownloadStage::Verifying), "校验");
    assert_eq!(stage_label(DownloadStage::Extracting), "解压安装");
    assert_eq!(stage_label(DownloadStage::Done), "完成");
    assert_eq!(stage_label(DownloadStage::Failed), "失败");
}

#[test]
fn ttl_inputs() {
    for ok in ["-1", "0", "3600", " 12h ", "30m", "10s", "7d", "+5", "0h", "-3h"] {
        assert!(valid_ttl(ok), "{ok}");
    }
    for bad in ["", "-5", "h", "1x", "abc", "1.5h", "99999999999999999999", "12hh"] {
        assert!(!valid_ttl(bad), "{bad}");
    }
}

#[test]
fn cell_widths() {
    assert_eq!(cell_width('a'), 1);
    assert_eq!(cell_width('中'), 2);
    assert_eq!(cell_width('…'), 1);
    assert_eq!(display_width("ab中文"), 6);
    assert_eq!(truncate_cells("abc", 3), "abc");
    assert_eq!(truncate_cells("中文字", 5), "中文…");
    assert_eq!(truncate_cells("abcdef", 4), "abc…");
    assert_eq!(truncate_cells("abc", 0), "…");
    assert_eq!(pad_cells("中", 4), "中  ");
    assert_eq!(pad_cells("abcde", 3), "abcde");
    assert_eq!(on_off(true), "[开]");
    assert_eq!(on_off(false), "[关]");
}

#[test]
fn shift_wraps() {
    assert_eq!(shift(0, -1, 5), 4);
    assert_eq!(shift(4, 1, 5), 0);
    assert_eq!(shift(2, 7, 5), 4);
    assert_eq!(shift(3, -13, 5), 0);
    assert_eq!(shift(3, 1, 0), 0);
}

#[test]
fn mouse_support() {
    assert!(should_enable_mouse(None));
    assert!(should_enable_mouse(Some("xterm-256color")));
    assert!(should_enable_mouse(Some("TMUX")));
    assert!(should_enable_mouse(Some("linux")));
    assert!(!should_enable_mouse(Some("dumb")));
    assert!(!should_enable_mouse(Some("vt100")));
    let mut g = MouseGuard::new();
    assert!(g.check(3, 4, 80, 24));
    assert!(!g.check(80, 4, 80, 24));
    assert!(!g.check(1, 1, 80, 24));
    assert!(!g.is_ok());
}

#[test]
fn cut_text_fits_and_padding_reaches_target() {
    for s in ["abc", "工具管理器", "mixed 中文 text", ""] {
        for max in 1..12usize {
            assert!(display_width(&truncate_cells(s, max)) <= max);
        }
        for target in 0..16usize {
            let w = display_width(s);
            assert_eq!(display_width(&pad_cells(s, target)), w.max(target));
        }
    }
}

#[test]
fn shifting_back_returns_to_the_row() {
    for len in 1..6usize {
        for idx in 0..len {
            for delta in [-7isize, -1, 0, 1, 3, 11] {
                assert_eq!(shift(shift(idx, delta, len), -delta, len), idx);
            }
        }
    }
}
