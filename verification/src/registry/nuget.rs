//! NuGet mirror: the first `<add key=... value=...>` of `<packageSources>` in
//! `NuGet.Config`; the rest of the configuration is kept.

use vstd::prelude::*;

use crate::registry::RegistryPreset;
use crate::text::{
    append, append_str, chars_of, contains, contains_v, find, find_char, find_first, find_last,
    has_char, is_ws, lead_len, lemma_find_first_is, lemma_lead_len, lemma_no_occ_before,
    lemma_no_occ_concat_end, lemma_no_occ_concat_start, occurs_at, rfind, slice_of, starts_with,
    to_string, trim_start, trim_start_v, ws_pred,
};

verus! {

/// The text up to the first `"` (all of it when there is none).
pub open spec fn before_quote(s: Seq<char>) -> Seq<char> {
    match find_first(s, seq!['"']) {
        Some(q) => s.take(q),
        None => s,
    }
}

/// The quoted `value` of the first `<add ...>` tag.
pub open spec fn first_source(c: Seq<char>) -> Option<Seq<char>> {
    match find_first(c, "<add"@) {
        None => None,
        Some(i) => match find_first(c.skip(i), seq!['>']) {
            None => None,
            Some(j) => {
                let tag = c.subrange(i, i + j);
                match find_first(tag, "value="@) {
                    None => None,
                    Some(vi) => {
                        let rest = trim_start(tag.skip(vi + "value="@.len()));
                        if starts_with(rest, seq!['"']) {
                            Some(before_quote(rest.skip(1)))
                        } else {
                            None
                        }
                    },
                }
            },
        },
    }
}

pub fn first_source_value(content: &str) -> (r: Option<String>)
    ensures
        match r {
            Some(v) => first_source(content@) == Some(v@),
            None => first_source(content@) is None,
        },
{
    let c = chars_of(content);
    let add = chars_of("<add");
    let gt = vec!['>'];
    assert(gt@ =~= seq!['>']);
    let i = match find(&c, &add) {
        Some(i) => i,
        None => return None,
    };
    let from_i = slice_of(&c, i, c.len());
    assert(from_i@ =~= c@.skip(i as int));
    let j = match find(&from_i, &gt) {
        Some(j) => j,
        None => return None,
    };
    assert(occurs_at(from_i@, gt@, j as int));
    let tag = slice_of(&c, i, i + j);
    let value_eq = chars_of("value=");
    let vi = match find(&tag, &value_eq) {
        Some(vi) => vi,
        None => return None,
    };
    assert(occurs_at(tag@, value_eq@, vi as int));
    let vl = value_eq.len();
    let tl = tag.len();
    assert(vi + vl <= tl);
    let after = slice_of(&tag, vi + vl, tl);
    assert(after@ =~= tag@.skip(vi + value_eq@.len()));
    let rest = trim_start_v(&after);
    if rest.len() > 0 && rest[0] == '"' {
        assert(rest@.take(1) =~= seq!['"']);
        assert(starts_with(rest@, seq!['"']));
        let r2 = slice_of(&rest, 1, rest.len());
        assert(r2@ =~= rest@.skip(1));
        let quote = vec!['"'];
        assert(quote@ =~= seq!['"']);
        match find(&r2, &quote) {
            Some(q) => {
                let v = slice_of(&r2, 0, q);
                assert(v@ =~= r2@.take(q as int));
                Some(to_string(&v))
            },
            None => Some(to_string(&r2)),
        }
    } else {
        proof {
            if rest@.len() > 0 {
                assert(rest@.take(1)[0] != '"');
                assert(rest@.take(1) != seq!['"']);
            }
        }
        assert(!starts_with(rest@, seq!['"']));
        None
    }
}

/// The `<add>` line of a source.
pub open spec fn source_line(key: Seq<char>, url: Seq<char>) -> Seq<char> {
    "<add key=\""@ + key + "\" value=\""@ + url + "\" protocolVersion=\"3\" />"@
}

/// Inputs on which merging does not stop: a `<packageSources>` without any
/// `<add` after it needs a closing `</packageSources>`.
pub open spec fn sources_mergeable(c: Seq<char>) -> bool {
    contains(c, "<packageSources>"@) ==> {
        let start = find_first(c, "<packageSources>"@)->0;
        contains(c.skip(start), "<add"@) || contains(c, "</packageSources>"@)
    }
}

/// Whether merging can work on this content (see [`sources_mergeable`]).
pub fn is_mergeable(content: &str) -> (r: bool)
    ensures
        r == sources_mergeable(content@),
{
    let c = chars_of(content);
    match find(&c, &chars_of("<packageSources>")) {
        Some(start) => {
            let inner = slice_of(&c, start, c.len());
            assert(inner@ =~= c@.skip(start as int));
            contains_v(&inner, &chars_of("<add")) || contains_v(&c, &chars_of("</packageSources>"))
        },
        None => true,
    }
}

/// `NuGet.Config` with the source in: the first `<add ...>` tag after
/// `<packageSources>` replaced, or the line added inside the section just
/// before its closing `</packageSources>`,
/// or a section inserted before the last `</configuration>`, or a whole new
/// document.
pub open spec fn merged_sources(c: Seq<char>, key: Seq<char>, url: Seq<char>) -> Seq<char> {
    let line = source_line(key, url);
    if !contains(c, "<packageSources>"@) {
        let insert = "  <packageSources>\n    "@ + line + "\n  </packageSources>\n"@;
        match find_last(c, "</configuration>"@) {
            Some(i) => c.take(i) + insert + c.skip(i),
            None => "<?xml version=\"1.0\" encoding=\"utf-8\"?>\n<configuration>\n"@ + insert
                + "</configuration>\n"@,
        }
    } else {
        let start = find_first(c, "<packageSources>"@)->0;
        match find_first(c.skip(start), "<add"@) {
            Some(add_i) => {
                let abs = start + add_i;
                let end = match find_first(c.skip(abs), seq!['>']) {
                    Some(j) => abs + j + 1,
                    None => abs + 1,
                };
                c.take(abs) + line + c.skip(end)
            },
            None => {
                let close = find_first(c, "</packageSources>"@)->0;
                c.take(close) + "\n    "@ + line + "\n  "@ + c.skip(close)
            },
        }
    }
}

fn source_line_v(key: &str, url: &str) -> (r: Vec<char>)
    ensures
        r@ == source_line(key@, url@),
{
    let mut r: Vec<char> = Vec::new();
    append_str(&mut r, "<add key=\"");
    append_str(&mut r, key);
    append_str(&mut r, "\" value=\"");
    append_str(&mut r, url);
    append_str(&mut r, "\" protocolVersion=\"3\" />");
    r
}

/// Injects or replaces the first package source.
pub fn merge_sources_xml(content: &str, key: &str, url: &str) -> (r: String)
    requires
        sources_mergeable(content@),
    ensures
        r@ == merged_sources(content@, key@, url@),
{
    let c = chars_of(content);
    let line = source_line_v(key, url);
    let open = chars_of("<packageSources>");
    let start = match find(&c, &open) {
        None => {
            let mut insert: Vec<char> = Vec::new();
            append_str(&mut insert, "  <packageSources>\n    ");
            append(&mut insert, &line);
            append_str(&mut insert, "\n  </packageSources>\n");
            let end_tag = chars_of("</configuration>");
            return match rfind(&c, &end_tag) {
                Some(i) => {
                    let mut out = slice_of(&c, 0, i);
                    append(&mut out, &insert);
                    let tail = slice_of(&c, i, c.len());
                    append(&mut out, &tail);
                    assert(out@ =~= c@.take(i as int) + insert@ + c@.skip(i as int));
                    to_string(&out)
                },
                None => {
                    let mut out: Vec<char> = Vec::new();
                    append_str(&mut out, "<?xml version=\"1.0\" encoding=\"utf-8\"?>\n<configuration>\n");
                    append(&mut out, &insert);
                    append_str(&mut out, "</configuration>\n");
                    to_string(&out)
                },
            };
        },
        Some(s) => s,
    };
    assert(occurs_at(c@, open@, start as int));
    let inner = slice_of(&c, start, c.len());
    assert(inner@ =~= c@.skip(start as int));
    let add = chars_of("<add");
    match find(&inner, &add) {
        Some(add_i) => {
            assert(occurs_at(inner@, add@, add_i as int));
            proof {
                reveal_strlit("<add");
            }
            assert(add@.len() == 4);
            let abs = start + add_i;
            assert(abs + 1 <= c@.len());
            let from_abs = slice_of(&c, abs, c.len());
            assert(from_abs@ =~= c@.skip(abs as int));
            let gt = vec!['>'];
            assert(gt@ =~= seq!['>']);
            let end = match find(&from_abs, &gt) {
                Some(j) => {
                    assert(occurs_at(from_abs@, gt@, j as int));
                    abs + j + 1
                },
                None => abs + 1,
            };
            let mut out = slice_of(&c, 0, abs);
            append(&mut out, &line);
            let tail = slice_of(&c, end, c.len());
            append(&mut out, &tail);
            assert(out@ =~= c@.take(abs as int) + line@ + c@.skip(end as int));
            to_string(&out)
        },
        None => {
            let close = chars_of("</packageSources>");
            let e0 = match find(&c, &close) {
                Some(i) => {
                    assert(occurs_at(c@, close@, i as int));
                    i
                },
                None => {
                    assert(false);
                    0
                },
            };
            let clen = close.len();
            let total = c.len();
            assert(e0 + clen <= total);
            let mut out = slice_of(&c, 0, e0);
            append_str(&mut out, "\n    ");
            append(&mut out, &line);
            append_str(&mut out, "\n  ");
            let tail = slice_of(&c, e0, c.len());
            append(&mut out, &tail);
            assert(out@ =~= c@.take(e0 as int) + "\n    "@ + line@ + "\n  "@ + c@.skip(e0 as int));
            to_string(&out)
        },
    }
}

/// NuGet: the first package source of `NuGet.Config`.
pub struct NugetWriter;

impl NugetWriter {
    pub fn tool_name(&self) -> (r: &'static str)
        ensures
            r@ == "nuget"@,
    {
        "nuget"
    }

    pub fn current_url(&self, content: &str) -> (r: Option<String>)
        ensures
            match r {
                Some(v) => first_source(content@) == Some(v@),
                None => first_source(content@) is None,
            },
    {
        first_source_value(content)
    }

    pub fn merged_config(&self, content: &str, preset: &RegistryPreset) -> (r: String)
        requires
            sources_mergeable(content@),
        ensures
            r@ == merged_sources(content@, preset.name@, preset.url@),
    {
        merge_sources_xml(content, preset.name.as_str(), preset.url.as_str())
    }
}

// ---------------------------------------------------------------------------
// Reading back what was merged
// ---------------------------------------------------------------------------

/// Where the source line goes: over the first `<add` of `<packageSources>`,
/// else before `</packageSources>`, else before the last `</configuration>`;
/// 0 when a new file is written.
pub open spec fn source_insert_at(c: Seq<char>) -> int {
    if !contains(c, "<packageSources>"@) {
        match find_last(c, "</configuration>"@) {
            Some(i) => i,
            None => 0,
        }
    } else {
        let start = find_first(c, "<packageSources>"@)->0;
        match find_first(c.skip(start), "<add"@) {
            Some(add_i) => start + add_i,
            None => find_first(c, "</packageSources>"@)->0,
        }
    }
}

/// Text in which no `<` is followed by `a` holds no `<add`.
proof fn lemma_no_add_tag(s: Seq<char>)
    requires
        forall|i: int| 0 <= i < s.len() - 1 && #[trigger] s[i] == '<' ==> s[i + 1] != 'a',
    ensures
        !contains(s, "<add"@),
{
    reveal_strlit("<add");
    assert forall|j: int| !occurs_at(s, "<add"@, j) by {
        if occurs_at(s, "<add"@, j) {
            assert(s.subrange(j, j + 4)[0] == s[j]);
            assert(s.subrange(j, j + 4)[1] == s[j + 1]);
        }
    }
}

proof fn lemma_no_char(s: Seq<char>, c: char)
    requires
        forall|i: int| 0 <= i < s.len() ==> s[i] != c,
    ensures
        !contains(s, seq![c]),
{
    assert forall|j: int| !occurs_at(s, seq![c], j) by {
        if occurs_at(s, seq![c], j) {
            assert(s.subrange(j, j + 1)[0] == s[j]);
        }
    }
}

/// The merged file is the source line with text before it that holds no
/// `<add`, and text after it.
proof fn lemma_nuget_split(c: Seq<char>, key: Seq<char>, url: Seq<char>) -> (r: (Seq<char>, Seq<char>))
    requires
        !contains(c.take(source_insert_at(c)), "<add"@),
    ensures
        merged_sources(c, key, url) == r.0 + source_line(key, url) + r.1,
        !contains(r.0, "<add"@),
{
    let pa = "<add"@;
    reveal_strlit("<add");
    let line = source_line(key, url);
    let pre: Seq<char>;
    let x: Seq<char>;
    let rest: Seq<char>;
    if !contains(c, "<packageSources>"@) {
        x = "  <packageSources>\n    "@;
        reveal_strlit("  <packageSources>\n    ");
        match find_last(c, "</configuration>"@) {
            Some(i) => {
                pre = c.take(i);
                rest = "\n  </packageSources>\n"@ + c.skip(i);
            },
            None => {
                let h = "<?xml version=\"1.0\" encoding=\"utf-8\"?>\n<configuration>\n"@;
                reveal_strlit("<?xml version=\"1.0\" encoding=\"utf-8\"?>\n<configuration>\n");
                pre = h;
                rest = "\n  </packageSources>\n"@ + "</configuration>\n"@;
                assert forall|i: int| 0 <= i < h.len() - 1 && #[trigger] h[i] == '<' implies h[i + 1]
                    != 'a' by {
                }
                lemma_no_add_tag(h);
            },
        }
        assert(merged_sources(c, key, url) =~= pre + x + line + rest);
    } else {
        let start = find_first(c, "<packageSources>"@)->0;
        match find_first(c.skip(start), "<add"@) {
            Some(add_i) => {
                let abs = start + add_i;
                let end = match find_first(c.skip(abs), seq!['>']) {
                    Some(j) => abs + j + 1,
                    None => abs + 1,
                };
                x = Seq::empty();
                pre = c.take(abs);
                rest = c.skip(end);
                assert(merged_sources(c, key, url) =~= pre + x + line + rest);
            },
            None => {
                let close = find_first(c, "</packageSources>"@)->0;
                x = "\n    "@;
                reveal_strlit("\n    ");
                pre = c.take(close);
                rest = "\n  "@ + c.skip(close);
                assert(merged_sources(c, key, url) =~= pre + x + line + rest);
            },
        }
    }
    assert forall|i: int| 0 <= i < x.len() - 1 && #[trigger] x[i] == '<' implies x[i + 1] != 'a' by {
    }
    lemma_no_add_tag(x);
    if x.len() > 0 {
        assert(x[0] == ' ' || x[0] == '\n');
        lemma_no_occ_concat_start(pre, x, pa);
    } else {
        assert(pre + x =~= pre);
    }
    (pre + x, rest)
}

/// The tag of the source line, up to its closing `>`, holds no `>`.
proof fn lemma_line_body(key: Seq<char>, url: Seq<char>) -> (body: Seq<char>)
    requires
        forall|i: int| 0 <= i < key.len() ==> key[i] != '>',
        forall|i: int| 0 <= i < url.len() ==> url[i] != '>',
    ensures
        source_line(key, url) == body.push('>'),
        !contains(body, seq!['>']),
        body == "<add key=\""@ + key + "\" "@ + ("value=\""@ + url + "\" protocolVersion=\"3\" /"@),
{
    let s1 = "<add key=\""@;
    let s2 = "\" value=\""@;
    let s3 = "\" protocolVersion=\"3\" />"@;
    reveal_strlit("<add key=\"");
    reveal_strlit("\" value=\"");
    reveal_strlit("\" protocolVersion=\"3\" />");
    reveal_strlit("\" ");
    reveal_strlit("value=\"");
    reveal_strlit("\" protocolVersion=\"3\" /");
    assert(s3.len() == 24);
    let body = s1 + key + s2 + url + s3.take(23);
    assert(source_line(key, url) =~= body.push('>'));
    assert forall|i: int| 0 <= i < body.len() implies body[i] != '>' by {
        if i < s1.len() {
        } else if i < s1.len() + key.len() {
            assert(body[i] == key[i - s1.len()]);
        } else if i < s1.len() + key.len() + s2.len() {
            assert(body[i] == s2[i - s1.len() - key.len()]);
        } else if i < s1.len() + key.len() + s2.len() + url.len() {
            assert(body[i] == url[i - s1.len() - key.len() - s2.len()]);
        } else {
            assert(body[i] == s3[i - s1.len() - key.len() - s2.len() - url.len()]);
        }
    }
    lemma_no_char(body, '>');
    assert(body =~= "<add key=\""@ + key + "\" "@ + ("value=\""@ + url + "\" protocolVersion=\"3\" /"@));
    body
}

/// Reading the source line after text without `<add`.
proof fn lemma_read_line(pre: Seq<char>, key: Seq<char>, url: Seq<char>, rest: Seq<char>)
    requires
        !contains(pre, "<add"@),
        forall|i: int| 0 <= i < key.len() ==> key[i] != '>',
        !contains(key, "value="@),
        forall|i: int| 0 <= i < url.len() ==> url[i] != '>' && url[i] != '"',
    ensures
        first_source(pre + source_line(key, url) + rest) == Some(url),
{
    let pa = "<add"@;
    let pv = "value="@;
    reveal_strlit("<add");
    reveal_strlit("value=");
    reveal_strlit("value=\"");
    reveal_strlit("<add key=\"");
    reveal_strlit("\" ");
    reveal_strlit("\" protocolVersion=\"3\" /");
    let line = source_line(key, url);
    let body = lemma_line_body(key, url);
    let m = pre + (line + rest);
    assert(pre + line + rest =~= m);
    assert(line[0] == body[0]);
    assert((line + rest)[0] == '<');
    lemma_no_occ_before(pre, line + rest, pa);
    assert(m.subrange(pre.len() as int, pre.len() + 4int) =~= pa);
    lemma_find_first_is(m, pa, pre.len() as int);
    let after = m.skip(pre.len() as int);
    assert(after =~= body + (seq!['>'] + rest));
    lemma_no_occ_before(body, seq!['>'] + rest, seq!['>']);
    assert(after.subrange(body.len() as int, body.len() + 1int) =~= seq!['>']);
    lemma_find_first_is(after, seq!['>'], body.len() as int);
    let tag = m.subrange(pre.len() as int, (pre.len() + body.len()) as int);
    assert(tag =~= body);
    let s1 = "<add key=\""@;
    let tl = "\" protocolVersion=\"3\" /"@;
    let a = s1 + key + "\" "@;
    assert(body =~= a + ("value=\""@ + url + tl));
    assert forall|i: int| 0 <= i < s1.len() implies !occurs_at(s1, pv, i) by {
        if occurs_at(s1, pv, i) {
            assert(s1.subrange(i, i + 6)[0] == s1[i]);
            assert(s1.subrange(i, i + 6)[5] == s1[i + 5]);
        }
    }
    assert forall|i: int| !occurs_at(s1, pv, i) by {
    }
    lemma_no_occ_concat_end(s1, key, pv);
    assert forall|i: int| !occurs_at("\" "@, pv, i) by {
    }
    lemma_no_occ_concat_start(s1 + key, "\" "@, pv);
    lemma_no_occ_before(a, "value=\""@ + url + tl, pv);
    assert(body.subrange(a.len() as int, a.len() + 6int) =~= pv);
    lemma_find_first_is(tag, pv, a.len() as int);
    let vrest = tag.skip(a.len() + 6int);
    assert(vrest =~= seq!['"'] + url + tl);
    assert(!is_ws('"'));
    lemma_lead_len(vrest, ws_pred(), 0);
    assert(trim_start(vrest) =~= vrest);
    assert(vrest.take(1) =~= seq!['"']);
    let r2 = vrest.skip(1);
    assert(r2 =~= url + tl);
    lemma_no_char(url, '"');
    assert(tl[0] == '"');
    lemma_no_occ_before(url, tl, seq!['"']);
    assert(r2.subrange(url.len() as int, url.len() + 1int) =~= seq!['"']);
    lemma_find_first_is(r2, seq!['"'], url.len() as int);
    assert(r2.take(url.len() as int) =~= url);
}

/// NuGet: after a source is merged into `NuGet.Config`, the value read back
/// is the merged URL. This holds when the file has no `<add` before the
/// place the line goes, the key holds no `>` and no `value=`, and the URL
/// no `>` and no `"`; an earlier `<add`, as in a `<config>` section before
/// `<packageSources>`, is what reading finds instead.
pub proof fn lemma_nuget_reads_back(c: Seq<char>, key: Seq<char>, url: Seq<char>)
    requires
        !contains(c.take(source_insert_at(c)), "<add"@),
        forall|i: int| 0 <= i < key.len() ==> key[i] != '>',
        !contains(key, "value="@),
        forall|i: int| 0 <= i < url.len() ==> url[i] != '>' && url[i] != '"',
    ensures
        first_source(merged_sources(c, key, url)) == Some(url),
{
    let (pre, rest) = lemma_nuget_split(c, key, url);
    lemma_read_line(pre, key, url, rest);
}

} // verus!
