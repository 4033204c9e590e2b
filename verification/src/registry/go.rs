//! go mirror: not a file but `go env -w GOPROXY=...`, left to the go tool chain.

use vstd::prelude::*;

use crate::registry::RegistryPreset;
use crate::text::{
    append_str, chars_of, chars_of_string, contains, contains_v, ends_with, ends_with_v, eq,
    slice_of, starts_with, starts_with_v, to_string, trim, trim_v,
};

verus! {

/// `str::trim_end_matches(pat)`: every trailing copy of a non-empty `pat` removed.
pub open spec fn strip_suffixes(s: Seq<char>, pat: Seq<char>) -> Seq<char>
    decreases s.len(),
{
    if pat.len() > 0 && ends_with(s, pat) {
        strip_suffixes(s.take(s.len() - pat.len()), pat)
    } else {
        s
    }
}

fn strip_suffixes_v(s: &Vec<char>, pat: &Vec<char>) -> (r: Vec<char>)
    ensures
        r@ == strip_suffixes(s@, pat@),
{
    let mut cur = slice_of(s, 0, s.len());
    assert(s@.subrange(0, s@.len() as int) =~= s@);
    while pat.len() > 0 && ends_with_v(&cur, pat)
        invariant
            strip_suffixes(cur@, pat@) == strip_suffixes(s@, pat@),
        decreases cur.len(),
    {
        let n = cur.len() - pat.len();
        let next = slice_of(&cur, 0, n);
        assert(next@ =~= cur@.take(cur@.len() - pat@.len()));
        cur = next;
    }
    cur
}

/// The value `go env GOPROXY` printed: none when the command failed or the
/// output is empty or `<nil>`.
pub open spec fn go_env_value(success: bool, out: Seq<char>) -> Option<Seq<char>> {
    let s = trim(out);
    if !success || s.len() == 0 || s == "<nil>"@ {
        None
    } else {
        Some(s)
    }
}

/// The `GOPROXY` value for a preset: the official proxy with `direct`
/// fallback for the preset named `official`, else the preset URL.
pub open spec fn goproxy_value(name: Seq<char>, url: Seq<char>) -> Seq<char> {
    if name == "official"@ {
        "https://proxy.golang.org,direct"@
    } else {
        url
    }
}

/// The configured proxy counts as the preset's: it starts with the preset
/// URL (without `,direct`), or the preset URL contains it.
pub open spec fn goproxy_matches(current: Option<Seq<char>>, url: Seq<char>) -> bool {
    match current {
        Some(u) => starts_with(u, strip_suffixes(url, ",direct"@)) || contains(url, u),
        None => false,
    }
}

/// Removing suffixes leaves a prefix of the text.
proof fn lemma_strip_suffixes_prefix(s: Seq<char>, pat: Seq<char>)
    ensures
        starts_with(s, strip_suffixes(s, pat)),
    decreases s.len(),
{
    if pat.len() > 0 && ends_with(s, pat) {
        let t = s.take(s.len() - pat.len());
        lemma_strip_suffixes_prefix(t, pat);
        let r = strip_suffixes(t, pat);
        assert(s.take(r.len() as int) =~= t.take(r.len() as int));
    } else {
        assert(s.take(s.len() as int) =~= s);
    }
}

/// The `GOPROXY` value written for a preset, when `go env` reports it back,
/// verifies as that preset's. For the preset named `official` the value
/// written is the official proxy, so this needs that preset's URL (without
/// `,direct`) to begin it.
pub proof fn lemma_go_written_verifies(name: Seq<char>, url: Seq<char>)
    requires
        name == "official"@ ==> starts_with("https://proxy.golang.org,direct"@, strip_suffixes(url, ",direct"@)),
    ensures
        goproxy_matches(Some(goproxy_value(name, url)), url),
{
    lemma_strip_suffixes_prefix(url, ",direct"@);
}

/// go: `GOPROXY` through `go env`.
pub struct GoWriter;

impl GoWriter {
    pub fn tool_name(&self) -> (r: &'static str)
        ensures
            r@ == "go"@,
    {
        "go"
    }

    /// Reads `go env GOPROXY` from its exit status and output.
    pub fn env_value(&self, success: bool, stdout: &str) -> (r: Option<String>)
        ensures
            match r {
                Some(v) => go_env_value(success, stdout@) == Some(v@),
                None => go_env_value(success, stdout@) is None,
            },
    {
        if !success {
            return None;
        }
        let c = chars_of(stdout);
        let s = trim_v(&c);
        if s.len() == 0 || eq(&s, &chars_of("<nil>")) {
            None
        } else {
            Some(to_string(&s))
        }
    }

    pub fn proxy_value(&self, preset: &RegistryPreset) -> (r: String)
        ensures
            r@ == goproxy_value(preset.name@, preset.url@),
    {
        let n = chars_of_string(&preset.name);
        if eq(&n, &chars_of("official")) {
            to_string(&chars_of("https://proxy.golang.org,direct"))
        } else {
            preset.url.clone()
        }
    }

    /// The argument of `go env -w`.
    pub fn env_assignment(&self, preset: &RegistryPreset) -> (r: String)
        ensures
            r@ == "GOPROXY="@ + goproxy_value(preset.name@, preset.url@),
    {
        let v = self.proxy_value(preset);
        let mut a: Vec<char> = Vec::new();
        append_str(&mut a, "GOPROXY=");
        append_str(&mut a, v.as_str());
        to_string(&a)
    }

    /// Whether the configured proxy is the preset's.
    pub fn verify(&self, current: Option<&str>, preset: &RegistryPreset) -> (r: bool)
        ensures
            r == goproxy_matches(
                match current {
                    Some(c) => Some(c@),
                    None => None,
                },
                preset.url@,
            ),
    {
        match current {
            Some(u) => {
                let uc = chars_of(u);
                let url = chars_of_string(&preset.url);
                let base = strip_suffixes_v(&url, &chars_of(",direct"));
                starts_with_v(&uc, &base) || contains_v(&url, &uc)
            },
            None => false,
        }
    }

    /// The first `go` preset whose URL (without `,direct`) the proxy contains.
    pub fn matching_preset(&self, presets: &Vec<RegistryPreset>, current: &str) -> (r: Option<String>)
        ensures
            match r {
                Some(n) => exists|k: int|
                    0 <= k < presets@.len() && presets@[k].tool@ == "go"@ && contains(
                        current@,
                        strip_suffixes(presets@[k].url@, ",direct"@),
                    ) && n@ == presets@[k].name@,
                None => forall|k: int|
                    0 <= k < presets@.len() ==> !(presets@[k].tool@ == "go"@ && contains(
                        current@,
                        strip_suffixes(presets@[k].url@, ",direct"@),
                    )),
            },
    {
        let cur = chars_of(current);
        let go = chars_of("go");
        let direct = chars_of(",direct");
        let mut i: usize = 0;
        while i < presets.len()
            invariant
                i <= presets.len(),
                cur@ == current@,
                go@ == "go"@,
                direct@ == ",direct"@,
                forall|k: int|
                    0 <= k < i ==> !(presets@[k].tool@ == "go"@ && contains(
                        current@,
                        strip_suffixes(presets@[k].url@, ",direct"@),
                    )),
            decreases presets.len() - i,
        {
            let p = &presets[i];
            let t = chars_of_string(&p.tool);
            let u = chars_of_string(&p.url);
            let base = strip_suffixes_v(&u, &direct);
            if eq(&t, &go) && contains_v(&cur, &base) {
                return Some(p.name.clone());
            }
            i = i + 1;
        }
        None
    }
}

} // verus!
