//! maven mirror in `~/.m2/settings.xml`: the `<mirrors>` block is replaced or
//! inserted; the rest of the XML is kept.

use vstd::prelude::*;

use crate::registry::RegistryPreset;
use crate::text::{
    append, append_str, chars_of, contains, contains_v, find, find_first, lemma_find_first_is,
    lemma_no_occ_before, lemma_no_occ_concat_end, lemma_no_occ_concat_start,
    lemma_find_first_props, occurs_at, rfind, find_last, lemma_find_last_props, slice_of, to_string,
    trim, trim_v,
};

verus! {

/// The URL of the first `<url>...</url>`, trimmed.
pub open spec fn first_mirror_url(c: Seq<char>) -> Option<Seq<char>> {
    match find_first(c, "<url>"@) {
        None => None,
        Some(i) => {
            let rest = c.skip(i + "<url>"@.len());
            match find_first(rest, "</url>"@) {
                Some(j) => Some(trim(rest.take(j))),
                None => None,
            }
        },
    }
}

pub fn extract_first_mirror_url(content: &str) -> (r: Option<String>)
    ensures
        match r {
            Some(v) => first_mirror_url(content@) == Some(v@),
            None => first_mirror_url(content@) is None,
        },
{
    let c = chars_of(content);
    let open = chars_of("<url>");
    let close = chars_of("</url>");
    match find(&c, &open) {
        Some(i) => {
            assert(occurs_at(c@, open@, i as int));
            let ol = open.len();
            let cl = c.len();
            assert(i + ol <= cl);
            let rest = slice_of(&c, i + ol, cl);
            assert(rest@ =~= c@.skip(i + open@.len()));
            match find(&rest, &close) {
                Some(j) => {
                    let t = slice_of(&rest, 0, j);
                    assert(t@ =~= rest@.take(j as int));
                    Some(to_string(&trim_v(&t)))
                },
                None => None,
            }
        },
        None => None,
    }
}

/// The `<mirror>` block for a mirror of central.
pub open spec fn mirror_block(name: Seq<char>, url: Seq<char>) -> Seq<char> {
    "<mirror>\n      <id>"@ + name + "</id>\n      <mirrorOf>central</mirrorOf>\n      <url>"@ + url
        + "</url>\n    </mirror>"@
}

/// `settings.xml` with the mirror in: the `<mirrors>...</mirrors>` block
/// replaced when both tags occur; otherwise a block inserted before the last
/// `</settings>`, or a whole new document when there is none.
pub open spec fn merged_settings(c: Seq<char>, name: Seq<char>, url: Seq<char>) -> Seq<char> {
    let block = mirror_block(name, url);
    if !(contains(c, "<mirrors>"@) && contains(c, "</mirrors>"@)) {
        let insert = "  <mirrors>\n    "@ + block + "\n  </mirrors>\n"@;
        match find_last(c, "</settings>"@) {
            Some(i) => c.take(i) + insert + c.skip(i),
            None => "<settings xmlns=\"http://maven.apache.org/SETTINGS/1.0.0\">\n  "@ + insert
                + "\n</settings>\n"@,
        }
    } else {
        let start = find_first(c, "<mirrors>"@)->0;
        let end = find_first(c, "</mirrors>"@)->0 + "</mirrors>"@.len();
        c.take(start) + "<mirrors>\n    "@ + block + "\n  </mirrors>"@ + c.skip(end)
    }
}

fn mirror_block_v(name: &str, url: &str) -> (r: Vec<char>)
    ensures
        r@ == mirror_block(name@, url@),
{
    let mut r: Vec<char> = Vec::new();
    append_str(&mut r, "<mirror>\n      <id>");
    append_str(&mut r, name);
    append_str(&mut r, "</id>\n      <mirrorOf>central</mirrorOf>\n      <url>");
    append_str(&mut r, url);
    append_str(&mut r, "</url>\n    </mirror>");
    r
}

/// Injects or replaces the mirror block in `settings.xml`.
pub fn merge_settings_xml(content: &str, mirror_name: &str, url: &str) -> (r: String)
    ensures
        r@ == merged_settings(content@, mirror_name@, url@),
{
    let c = chars_of(content);
    let block = mirror_block_v(mirror_name, url);
    let open = chars_of("<mirrors>");
    let close = chars_of("</mirrors>");
    let both = contains_v(&c, &open) && contains_v(&c, &close);
    if !both {
        let mut insert: Vec<char> = Vec::new();
        append_str(&mut insert, "  <mirrors>\n    ");
        append(&mut insert, &block);
        append_str(&mut insert, "\n  </mirrors>\n");
        let end_tag = chars_of("</settings>");
        match rfind(&c, &end_tag) {
            Some(i) => {
                let mut out = slice_of(&c, 0, i);
                append(&mut out, &insert);
                let tail = slice_of(&c, i, c.len());
                append(&mut out, &tail);
                assert(out@ =~= c@.take(i as int) + insert@ + c@.skip(i as int));
                to_string(&out)
            },
            None => {
                let mut out: Vec<char> = Vec::new();
                append_str(&mut out, "<settings xmlns=\"http://maven.apache.org/SETTINGS/1.0.0\">\n  ");
                append(&mut out, &insert);
                append_str(&mut out, "\n</settings>\n");
                to_string(&out)
            },
        }
    } else {
        let start = match find(&c, &open) {
            Some(i) => i,
            None => {
                assert(false);
                0
            },
        };
        let e0 = match find(&c, &close) {
            Some(i) => {
                assert(occurs_at(c@, close@, i as int));
                i
            },
            None => {
                assert(false);
                0
            },
        };
        let clen = close.len();
        let total = c.len();
        assert(e0 + clen <= total);
        let end = e0 + clen;
        let mut out = slice_of(&c, 0, start);
        append_str(&mut out, "<mirrors>\n    ");
        append(&mut out, &block);
        append_str(&mut out, "\n  </mirrors>");
        let tail = slice_of(&c, end, c.len());
        append(&mut out, &tail);
        assert(out@ =~= c@.take(start as int) + "<mirrors>\n    "@ + block@ + "\n  </mirrors>"@
            + c@.skip(end as int));
        to_string(&out)
    }
}

/// maven: the first mirror of `~/.m2/settings.xml`.
pub struct MavenWriter;

impl MavenWriter {
    pub fn tool_name(&self) -> (r: &'static str)
        ensures
            r@ == "maven"@,
    {
        "maven"
    }

    pub fn current_url(&self, content: &str) -> (r: Option<String>)
        ensures
            match r {
                Some(v) => first_mirror_url(content@) == Some(v@),
                None => first_mirror_url(content@) is None,
            },
    {
        extract_first_mirror_url(content)
    }

    pub fn merged_config(&self, content: &str, preset: &RegistryPreset) -> (r: String)
        ensures
            r@ == merged_settings(content@, preset.name@, preset.url@),
    {
        merge_settings_xml(content, preset.name.as_str(), preset.url.as_str())
    }
}

// ---------------------------------------------------------------------------
// Reading back what was merged
// ---------------------------------------------------------------------------

/// Text in which no `<` is followed by `u` holds no `<url>`.
proof fn lemma_no_url_tag(s: Seq<char>)
    requires
        forall|i: int| 0 <= i < s.len() - 1 && #[trigger] s[i] == '<' ==> s[i + 1] != 'u',
    ensures
        !contains(s, "<url>"@),
{
    reveal_strlit("<url>");
    assert forall|j: int| !occurs_at(s, "<url>"@, j) by {
        if occurs_at(s, "<url>"@, j) {
            assert(s.subrange(j, j + 5)[0] == s[j]);
            assert(s.subrange(j, j + 5)[1] == s[j + 1]);
        }
    }
}

/// Where a new mirror block goes: the start of `<mirrors>` when the file
/// has a `<mirrors>` block, else the last `</settings>`; 0 when there is
/// neither (a new file is written).
pub open spec fn mirror_insert_at(c: Seq<char>) -> int {
    if contains(c, "<mirrors>"@) && contains(c, "</mirrors>"@) {
        find_first(c, "<mirrors>"@)->0
    } else {
        match find_last(c, "</settings>"@) {
            Some(i) => i,
            None => 0,
        }
    }
}

/// maven: after a mirror is merged into `settings.xml`, the first mirror
/// URL read back is the merged one (trimmed, as reading trims). This holds
/// when the file has no `<url>` before the place the block goes, the mirror
/// name holds no `<url>` and the URL no `</url>`; an earlier `<url>`, as in
/// a repository declared before `<mirrors>`, is what reading finds instead.
pub proof fn lemma_maven_reads_back(c: Seq<char>, name: Seq<char>, url: Seq<char>)
    requires
        !contains(c.take(mirror_insert_at(c)), "<url>"@),
        !contains(name, "<url>"@),
        !contains(url, "</url>"@),
    ensures
        first_mirror_url(merged_settings(c, name, url)) == Some(trim(url)),
{
    let p = "<url>"@;
    let q = "</url>"@;
    reveal_strlit("<url>");
    reveal_strlit("</url>");
    let l1 = "<mirror>\n      <id>"@;
    let l2u = "</id>\n      <mirrorOf>central</mirrorOf>\n      <url>"@;
    let tail = "</url>\n    </mirror>"@;
    reveal_strlit("<mirror>\n      <id>");
    reveal_strlit("</id>\n      <mirrorOf>central</mirrorOf>\n      <url>");
    reveal_strlit("</url>\n    </mirror>");
    assert(l2u.len() == 52);
    let l2 = l2u.take(47);
    assert(l2u.skip(47) =~= p);
    assert(l2u =~= l2 + p);
    assert(tail.take(6) =~= q);
    let block = mirror_block(name, url);
    assert(block =~= l1 + name + l2 + p + url + tail);
    // The text before the block.
    let pre: Seq<char>;
    let x: Seq<char>;
    let rest: Seq<char>;
    let ins = mirror_insert_at(c);
    if contains(c, "<mirrors>"@) && contains(c, "</mirrors>"@) {
        reveal_strlit("<mirrors>\n    ");
        x = "<mirrors>\n    "@;
        pre = c.take(ins);
        let end = find_first(c, "</mirrors>"@)->0 + "</mirrors>"@.len();
        rest = "\n  </mirrors>"@ + c.skip(end);
        assert(merged_settings(c, name, url) =~= pre + x + (l1 + name + l2 + p + url + tail) + rest);
    } else {
        reveal_strlit("  <mirrors>\n    ");
        x = "  <mirrors>\n    "@;
        match find_last(c, "</settings>"@) {
            Some(i) => {
                pre = c.take(i);
                rest = "\n  </mirrors>\n"@ + c.skip(i);
            },
            None => {
                let h = "<settings xmlns=\"http://maven.apache.org/SETTINGS/1.0.0\">\n  "@;
                reveal_strlit("<settings xmlns=\"http://maven.apache.org/SETTINGS/1.0.0\">\n  ");
                pre = h;
                rest = "\n  </mirrors>\n"@ + "\n</settings>\n"@;
                assert forall|i: int| 0 <= i < h.len() - 1 && #[trigger] h[i] == '<' implies h[i + 1]
                    != 'u' by {
                }
                lemma_no_url_tag(h);
            },
        }
        assert(merged_settings(c, name, url) =~= pre + x + (l1 + name + l2 + p + url + tail) + rest);
    }
    assert(!contains(pre, p));
    assert forall|i: int| 0 <= i < x.len() - 1 && #[trigger] x[i] == '<' implies x[i + 1] != 'u' by {
    }
    lemma_no_url_tag(x);
    assert forall|i: int| 0 <= i < l1.len() - 1 && #[trigger] l1[i] == '<' implies l1[i + 1] != 'u' by {
    }
    lemma_no_url_tag(l1);
    assert forall|i: int| 0 <= i < l2.len() - 1 && #[trigger] l2[i] == '<' implies l2[i + 1] != 'u' by {
        assert(l2[i] == l2u[i]);
        assert(l2[i + 1] == l2u[i + 1]);
    }
    lemma_no_url_tag(l2);
    // pre + x: x starts with `<` or a space
    lemma_no_occ_concat_start(pre, x, p);
    // + l1: x ends with a space
    lemma_no_occ_concat_end(pre + x, l1, p);
    // + name: l1 ends with `>`
    assert((pre + x + l1).last() == '>');
    lemma_no_occ_concat_end(pre + x + l1, name, p);
    // + l2: l2 starts with `<`
    assert(l2[0] == '<');
    lemma_no_occ_concat_start(pre + x + l1 + name, l2, p);
    let a = pre + x + l1 + name + l2;
    let m = a + (p + url + tail + rest);
    assert(merged_settings(c, name, url) =~= m);
    lemma_no_occ_before(a, p + url + tail + rest, p);
    assert(m.subrange(a.len() as int, a.len() + 5int) =~= p);
    lemma_find_first_is(m, p, a.len() as int);
    let after = m.skip(a.len() + 5int);
    assert(after =~= url + (tail + rest));
    lemma_no_occ_before(url, tail + rest, q);
    assert(after.subrange(url.len() as int, url.len() + 6int) =~= q);
    lemma_find_first_is(after, q, url.len() as int);
    assert(after.take(url.len() as int) =~= url);
}

} // verus!
