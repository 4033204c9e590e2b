//! Command-line pieces: `--tool <name>=<version>[,key=value...]` values and
//! the labels of download stages.

use vstd::prelude::*;

use crate::error::{EnvHiveError, EnvHiveErrorKind};
use crate::text::{
    append, append_str, chars_of, debug_quote, debug_str, eq, find, find_first, slice_of,
    split_on, split_on_v, to_string, trim, trim_v, views,
};

verus! {

/// A tool's entry in a project configuration: a version, or a version with
/// attributes.
#[derive(Debug, Clone)]
pub enum ToolValue {
    Plain(String),
    Attrs { version: String, vendor: Option<String>, unlink: Option<bool> },
}

impl ToolValue {
    pub fn plain(version: String) -> (r: ToolValue)
        ensures
            r matches ToolValue::Plain(v) && v@ == version@,
    {
        ToolValue::Plain(version)
    }
}

/// A parsed `--tool` value, as text.
pub enum ToolValueView {
    Plain(Seq<char>),
    Attrs(Seq<char>, Option<Seq<char>>, Option<bool>),
}

pub open spec fn opt_view(o: Option<String>) -> Option<Seq<char>> {
    match o {
        Some(s) => Some(s@),
        None => None,
    }
}

pub open spec fn tool_value_view(v: ToolValue) -> ToolValueView {
    match v {
        ToolValue::Plain(s) => ToolValueView::Plain(s@),
        ToolValue::Attrs { version, vendor, unlink } => ToolValueView::Attrs(
            version@,
            opt_view(vendor),
            unlink,
        ),
    }
}

/// The attributes after the first `,`: each non-empty `key=value` piece sets
/// `vendor` (its trimmed value) or `unlink` (whether the value is `true`);
/// a piece without `=` or with another key is an error.
pub open spec fn attrs_fold(pieces: Seq<Seq<char>>) -> Result<(Option<Seq<char>>, Option<bool>), Seq<char>>
    decreases pieces.len(),
{
    if pieces.len() == 0 {
        Ok((None, None))
    } else {
        match attrs_fold(pieces.drop_last()) {
            Err(m) => Err(m),
            Ok((vendor, unlink)) => {
                let kv = pieces.last();
                if kv.len() == 0 {
                    Ok((vendor, unlink))
                } else {
                    match find_first(kv, seq!['=']) {
                        None => Err("属性格式应为 key=value: "@ + kv),
                        Some(i) => {
                            let k = trim(kv.take(i));
                            let v = trim(kv.skip(i + 1));
                            if k == "vendor"@ {
                                Ok((Some(v), unlink))
                            } else if k == "unlink"@ {
                                Ok((vendor, Some(v == "true"@)))
                            } else {
                                Err("未知属性 "@ + debug_str(kv.take(i)) + "（支持 vendor / unlink）"@)
                            }
                        },
                    }
                }
            },
        }
    }
}

/// A `--tool` value: `<name>=<version>`, where the version may carry
/// attributes after a `,` (`java=21,vendor=openjdk`); errors as messages.
pub open spec fn parse_tool(s: Seq<char>) -> Result<(Seq<char>, ToolValueView), Seq<char>> {
    match find_first(s, seq!['=']) {
        None => Err("--tool 格式应为 <name>=<version>，收到: "@ + s),
        Some(i) => {
            let name = trim(s.take(i));
            let version = trim(s.skip(i + 1));
            if name.len() == 0 || version.len() == 0 {
                Err("--tool 名称与版本不可为空: "@ + s)
            } else {
                match find_first(version, seq![',']) {
                    None => Ok((name, ToolValueView::Plain(version))),
                    Some(j) => match attrs_fold(split_on(version.skip(j + 1), ',')) {
                        Err(m) => Err(m),
                        Ok((vendor, unlink)) => Ok(
                            (name, ToolValueView::Attrs(trim(version.take(j)), vendor, unlink)),
                        ),
                    },
                }
            }
        },
    }
}

fn config_error(m: Vec<char>) -> (e: EnvHiveError)
    ensures
        e.kind == EnvHiveErrorKind::Config,
        e.message@ == m@,
{
    EnvHiveError::new(EnvHiveErrorKind::Config, to_string(&m))
}

/// Parses the attributes of a `--tool` value.
fn parse_attrs(rest: &Vec<char>) -> (r: Result<(Option<String>, Option<bool>), EnvHiveError>)
    ensures
        match r {
            Ok((vendor, unlink)) => attrs_fold(split_on(rest@, ',')) == Ok::<
                (Option<Seq<char>>, Option<bool>),
                Seq<char>,
            >((opt_view(vendor), unlink)),
            Err(e) => e.kind == EnvHiveErrorKind::Config && attrs_fold(split_on(rest@, ','))
                == Err::<(Option<Seq<char>>, Option<bool>), Seq<char>>(e.message@),
        },
{
    let pieces = split_on_v(rest, ',');
    let ghost ps = views(pieces@);
    let mut vendor: Option<String> = None;
    let mut unlink: Option<bool> = None;
    let eqs = vec!['='];
    assert(eqs@ =~= seq!['=']);
    let mut i: usize = 0;
    while i < pieces.len()
        invariant
            i <= pieces.len(),
            ps == views(pieces@),
            ps == split_on(rest@, ','),
            eqs@ == seq!['='],
            attrs_fold(ps.take(i as int)) == Ok::<(Option<Seq<char>>, Option<bool>), Seq<char>>(
                (opt_view(vendor), unlink),
            ),
        decreases pieces.len() - i,
    {
        let kv = &pieces[i];
        assert(ps.take(i + 1).drop_last() =~= ps.take(i as int));
        assert(ps.take(i + 1).last() == kv@);
        if kv.len() > 0 {
            match find(kv, &eqs) {
                None => {
                    let mut m: Vec<char> = Vec::new();
                    append_str(&mut m, "属性格式应为 key=value: ");
                    append(&mut m, kv);
                    proof {
                        lemma_fold_err_stays(ps, i as int + 1);
                    }
                    return Err(config_error(m));
                },
                Some(j) => {
                    let kraw = slice_of(kv, 0, j);
                    let k = trim_v(&kraw);
                    let vraw = slice_of(kv, j + 1, kv.len());
                    assert(kraw@ =~= kv@.take(j as int));
                    assert(vraw@ =~= kv@.skip(j + 1));
                    let v = trim_v(&vraw);
                    if eq(&k, &chars_of("vendor")) {
                        vendor = Some(to_string(&v));
                    } else if eq(&k, &chars_of("unlink")) {
                        unlink = Some(eq(&v, &chars_of("true")));
                    } else {
                        let mut m: Vec<char> = Vec::new();
                        append_str(&mut m, "未知属性 ");
                        append(&mut m, &debug_quote(&kraw));
                        append_str(&mut m, "（支持 vendor / unlink）");
                        proof {
                            lemma_fold_err_stays(ps, i as int + 1);
                        }
                        return Err(config_error(m));
                    }
                },
            }
        }
        i = i + 1;
    }
    assert(ps.take(pieces.len() as int) =~= ps);
    Ok((vendor, unlink))
}

/// Once the attribute fold fails, it fails with the same message on every
/// longer prefix.
proof fn lemma_fold_err_stays(ps: Seq<Seq<char>>, n: int)
    requires
        0 <= n <= ps.len(),
        attrs_fold(ps.take(n)) is Err,
    ensures
        attrs_fold(ps) == attrs_fold(ps.take(n)),
    decreases ps.len() - n,
{
    if n < ps.len() {
        assert(ps.take(n + 1).drop_last() =~= ps.take(n));
        lemma_fold_err_stays(ps, n + 1);
    } else {
        assert(ps.take(n) =~= ps);
    }
}

/// Parses `--tool nodejs=22.11.0` or `--tool java=21,vendor=openjdk`.
pub fn parse_tool_value(s: &str) -> (r: Result<(String, ToolValue), EnvHiveError>)
    ensures
        match r {
            Ok((name, value)) => parse_tool(s@) == Ok::<(Seq<char>, ToolValueView), Seq<char>>(
                (name@, tool_value_view(value)),
            ),
            Err(e) => e.kind == EnvHiveErrorKind::Config && parse_tool(s@) == Err::<
                (Seq<char>, ToolValueView),
                Seq<char>,
            >(e.message@),
        },
{
    let c = chars_of(s);
    let eqs = vec!['='];
    assert(eqs@ =~= seq!['=']);
    let i = match find(&c, &eqs) {
        None => {
            let mut m: Vec<char> = Vec::new();
            append_str(&mut m, "--tool 格式应为 <name>=<version>，收到: ");
            append(&mut m, &c);
            return Err(config_error(m));
        },
        Some(i) => i,
    };
    let nraw = slice_of(&c, 0, i);
    let vraw = slice_of(&c, i + 1, c.len());
    assert(nraw@ =~= c@.take(i as int));
    assert(vraw@ =~= c@.skip(i + 1));
    let name = trim_v(&nraw);
    let version = trim_v(&vraw);
    if name.len() == 0 || version.len() == 0 {
        let mut m: Vec<char> = Vec::new();
        append_str(&mut m, "--tool 名称与版本不可为空: ");
        append(&mut m, &c);
        return Err(config_error(m));
    }
    let commas = vec![','];
    assert(commas@ =~= seq![',']);
    match find(&version, &commas) {
        None => Ok((to_string(&name), ToolValue::plain(to_string(&version)))),
        Some(j) => {
            let ver = slice_of(&version, 0, j);
            let rest = slice_of(&version, j + 1, version.len());
            assert(ver@ =~= version@.take(j as int));
            assert(rest@ =~= version@.skip(j + 1));
            match parse_attrs(&rest) {
                Err(e) => Err(e),
                Ok((vendor, unlink)) => Ok(
                    (
                        to_string(&name),
                        ToolValue::Attrs { version: to_string(&trim_v(&ver)), vendor, unlink },
                    ),
                ),
            }
        },
    }
}

/// The stages of a download task.
#[derive(Debug, Clone, Copy, PartialEq, Eq, Structural)]
pub enum DownloadStage {
    Resolving,
    Downloading,
    Verifying,
    Extracting,
    Done,
    Failed,
}

pub open spec fn stage_text(s: DownloadStage) -> Seq<char> {
    match s {
        DownloadStage::Resolving => "解析"@,
        DownloadStage::Downloading => "下载中"@,
        DownloadStage::Verifying => "校验"@,
        DownloadStage::Extracting => "解压安装"@,
        DownloadStage::Done => "完成"@,
        DownloadStage::Failed => "失败"@,
    }
}

/// The label a stage is shown with.
pub fn stage_label(s: DownloadStage) -> (r: &'static str)
    ensures
        r@ == stage_text(s),
{
    match s {
        DownloadStage::Resolving => "解析",
        DownloadStage::Downloading => "下载中",
        DownloadStage::Verifying => "校验",
        DownloadStage::Extracting => "解压安装",
        DownloadStage::Done => "完成",
        DownloadStage::Failed => "失败",
    }
}

} // verus!
