//! Where the registry file lies.

use crate::resolve::{given, owned_text, text_of};
use crate::text::{blank, to_chars};
use vstd::prelude::*;
use vstd::string::StringExecFns;

verus! {

/// The path of `rest` below the directory `base`: the two with one `/`
/// between them, which is left out where `base` is empty or ends in one.
pub open spec fn joined(base: Seq<char>, rest: Seq<char>) -> Seq<char> {
    if base.len() == 0 || base.last() == '/' {
        base + rest
    } else {
        base + seq!['/'] + rest
    }
}

/// The directory of the tool's files: `keychainctl` below the override
/// root, where one is given that holds more than white space; else
/// `.config/keychainctl` below the home directory, where one is given.
pub open spec fn config_dir_of(root: Option<Seq<char>>, home: Option<Seq<char>>) -> Option<
    Seq<char>,
> {
    if given(root) {
        Some(joined(root->0, "keychainctl"@))
    } else if home is Some {
        Some(joined(home->0, ".config/keychainctl"@))
    } else {
        None
    }
}

/// The path of the registry file: `registry.txt` in the directory of the tool's files.
pub open spec fn registry_path_of(root: Option<Seq<char>>, home: Option<Seq<char>>) -> Option<
    Seq<char>,
> {
    match config_dir_of(root, home) {
        Some(dir) => Some(joined(dir, "registry.txt"@)),
        None => None,
    }
}

/// Joins `rest` to the directory `base`.
pub fn join(base: &str, rest: &str) -> (r: String)
    ensures
        r@ == joined(base@, rest@),
{
    let b = to_chars(base);
    if b.len() == 0 || b[b.len() - 1] == '/' {
        String::from_str(base).concat(rest)
    } else {
        proof {
            reveal_strlit("/");
            assert("/"@ =~= seq!['/']);
        }
        String::from_str(base).concat("/").concat(rest)
    }
}

/// The directory of the tool's files. `root` is the value of the variable
/// that overrides the root of configuration directories, `home` the home
/// directory, each `None` where it is not set. Gives `None` where neither
/// names a place.
pub fn config_dir(root: Option<&str>, home: Option<&str>) -> (r: Option<String>)
    ensures
        owned_text(r) == config_dir_of(text_of(root), text_of(home)),
{
    if let Some(dir) = root {
        if !blank(dir) {
            return Some(join(dir, "keychainctl"));
        }
    }
    match home {
        Some(dir) => Some(join(dir, ".config/keychainctl")),
        None => None,
    }
}

/// The path of the registry file, or `None` where no directory for it is known.
pub fn registry_path(root: Option<&str>, home: Option<&str>) -> (r: Option<String>)
    ensures
        owned_text(r) == registry_path_of(text_of(root), text_of(home)),
{
    match config_dir(root, home) {
        Some(dir) => Some(join(dir.as_str(), "registry.txt")),
        None => None,
    }
}

} // verus!
