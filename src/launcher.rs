use vstd::prelude::*;
use crate::text::{chars_of, lower_of, lowercase, string_of, trim, trim_chars};

verus! {

/// A mod that the user switched off, by lower-case dev and name.
#[derive(Debug, Clone)]
pub struct DisabledMod {
    pub dev: String,
    pub name: String,
}

/// The folder name of an installed package: `dev-name`.
pub fn mod_folder_name(dev: &str, name: &str) -> (r: String)
    ensures
        r@ == dev@ + seq!['-'] + name@,
{
    let mut out = chars_of(dev);
    out.push('-');
    let mut n = chars_of(name);
    out.append(&mut n);
    string_of(&out)
}

/// The identity under which a disabled mod is recorded: dev and name,
/// trimmed and lower-cased.
pub fn normalize_mod_id(dev: &str, name: &str) -> (r: DisabledMod)
    ensures
        r.dev@ == lower_of(trim(dev@)),
        r.name@ == lower_of(trim(name@)),
{
    let d = string_of(&trim_chars(&chars_of(dev)));
    let n = string_of(&trim_chars(&chars_of(name)));
    DisabledMod { dev: lowercase(d.as_str()), name: lowercase(n.as_str()) }
}

} // verus!
