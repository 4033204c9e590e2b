//! Package-registry mirrors of language tool chains (cargo, npm, pip, maven,
//! NuGet, go): reading the mirror a configuration file uses, and merging a
//! chosen mirror into the file while keeping everything else.

pub mod cargo;
pub mod go;
pub mod ini;
pub mod maven;
pub mod nuget;
pub mod proxy;

use vstd::prelude::*;

use crate::text::{chars_of_string, contains, contains_v, eq};

verus! {

/// A mirror preset of one tool: its name, URL and extra settings.
pub struct RegistryPreset {
    pub tool: String,
    pub name: String,
    pub url: String,
    pub extra: Vec<(String, String)>,
}

/// What a tool's configuration currently points at.
pub struct RegistryState {
    pub tool: String,
    pub current_url: Option<String>,
    pub config_file: Option<String>,
    pub preset_name: Option<String>,
}

/// Preset `p` is one of `tool`'s and its URL and `url` contain one another.
pub open spec fn preset_fits(p: RegistryPreset, tool: Seq<char>, url: Seq<char>) -> bool {
    p.tool@ == tool && (contains(url, p.url@) || contains(p.url@, url))
}

/// The name of the first preset that fits the URL a configuration uses.
pub fn matching_preset(presets: &Vec<RegistryPreset>, tool: &String, url: &String) -> (r: Option<
    String,
>)
    ensures
        match r {
            Some(n) => exists|k: int|
                0 <= k < presets@.len() && preset_fits(presets@[k], tool@, url@) && (forall|j: int|
                    0 <= j < k ==> !preset_fits(presets@[j], tool@, url@)) && n@ == presets@[k].name@,
            None => forall|k: int| 0 <= k < presets@.len() ==> !preset_fits(presets@[k], tool@, url@),
        },
{
    let t = chars_of_string(tool);
    let u = chars_of_string(url);
    let mut i: usize = 0;
    while i < presets.len()
        invariant
            i <= presets.len(),
            t@ == tool@,
            u@ == url@,
            forall|j: int| 0 <= j < i ==> !preset_fits(presets@[j], tool@, url@),
        decreases presets.len() - i,
    {
        let p = &presets[i];
        let pt = chars_of_string(&p.tool);
        let pu = chars_of_string(&p.url);
        if eq(&pt, &t) && (contains_v(&u, &pu) || contains_v(&pu, &u)) {
            return Some(p.name.clone());
        }
        i = i + 1;
    }
    None
}

} // verus!
