//! The secret store's tool: the arguments that each operation hands to it,
//! and what its exit status and output mean.

use crate::error::{text_result, unit_result, Error, Fault};
use crate::registry::{names, Pair};
use crate::text::{
    contains, is_line_end, occurs, strip_line_end, trim, trimmed, without_line_end,
};
use vstd::prelude::*;
use vstd::string::StringExecFns;

verus! {

/// The words by which the tool says that it holds nothing under a key.
pub open spec fn absent_marker() -> Seq<char> {
    "could not be found"@
}

/// Whether the tool's diagnostic says that it holds nothing under the key.
pub open spec fn reports_absent(stderr: Seq<char>) -> bool {
    occurs(stderr, absent_marker())
}

/// The arguments of a lookup that prints the value alone.
pub open spec fn get_args(account: Seq<char>, service: Seq<char>) -> Seq<Seq<char>> {
    seq!["find-generic-password"@, "-w"@, "-a"@, account, "-s"@, service]
}

/// The arguments that store `value`, in place of an older value if there is one.
pub open spec fn set_args(account: Seq<char>, service: Seq<char>, value: Seq<char>) -> Seq<
    Seq<char>,
> {
    seq!["add-generic-password"@, "-a"@, account, "-s"@, service, "-w"@, value, "-U"@]
}

/// The arguments that delete what is stored under the key.
pub open spec fn delete_args(account: Seq<char>, service: Seq<char>) -> Seq<Seq<char>> {
    seq!["delete-generic-password"@, "-a"@, account, "-s"@, service]
}

/// What a lookup gives: the output without the line ends at its end where
/// the tool succeeded; else that nothing is stored, where the diagnostic
/// says so; else the trimmed diagnostic as a failure of the store.
pub open spec fn get_result(success: bool, stdout: Seq<char>, stderr: Seq<char>) -> Result<
    Seq<char>,
    Fault,
> {
    if success {
        Ok(without_line_end(stdout))
    } else if reports_absent(stderr) {
        Err(Fault::NotFound)
    } else {
        Err(Fault::Store(trimmed(stderr)))
    }
}

/// What storing gives: a failure of the store, with the exit status as its
/// text, unless the tool succeeded.
pub open spec fn set_result(success: bool, status: Seq<char>) -> Result<(), Fault> {
    if success {
        Ok(())
    } else {
        Err(Fault::Store(status))
    }
}

/// What deleting gives: success where the tool succeeded and where its
/// diagnostic says that nothing was stored; else the trimmed diagnostic as a
/// failure of the store.
pub open spec fn delete_result(success: bool, stderr: Seq<char>) -> Result<(), Fault> {
    if success || reports_absent(stderr) {
        Ok(())
    } else {
        Err(Fault::Store(trimmed(stderr)))
    }
}

/// The arguments of the tool for a lookup.
pub fn keychain_get_args(account: &str, service: &str) -> (r: Vec<String>)
    ensures
        names(r@) == get_args(account@, service@),
{
    let mut v: Vec<String> = Vec::new();
    v.push(String::from_str("find-generic-password"));
    v.push(String::from_str("-w"));
    v.push(String::from_str("-a"));
    v.push(String::from_str(account));
    v.push(String::from_str("-s"));
    v.push(String::from_str(service));
    assert(names(v@) =~= get_args(account@, service@));
    v
}

/// The arguments of the tool for storing `value`.
pub fn keychain_set_args(account: &str, service: &str, value: &str) -> (r: Vec<String>)
    ensures
        names(r@) == set_args(account@, service@, value@),
{
    let mut v: Vec<String> = Vec::new();
    v.push(String::from_str("add-generic-password"));
    v.push(String::from_str("-a"));
    v.push(String::from_str(account));
    v.push(String::from_str("-s"));
    v.push(String::from_str(service));
    v.push(String::from_str("-w"));
    v.push(String::from_str(value));
    v.push(String::from_str("-U"));
    assert(names(v@) =~= set_args(account@, service@, value@));
    v
}

/// The arguments of the tool for deleting.
pub fn keychain_delete_args(account: &str, service: &str) -> (r: Vec<String>)
    ensures
        names(r@) == delete_args(account@, service@),
{
    let mut v: Vec<String> = Vec::new();
    v.push(String::from_str("delete-generic-password"));
    v.push(String::from_str("-a"));
    v.push(String::from_str(account));
    v.push(String::from_str("-s"));
    v.push(String::from_str(service));
    assert(names(v@) =~= delete_args(account@, service@));
    v
}

/// Tests whether the tool's diagnostic says that nothing is stored under the key.
pub fn absent(stderr: &str) -> (r: bool)
    ensures
        r == reports_absent(stderr@),
{
    contains(stderr, "could not be found")
}

/// Reads the result of a lookup from the tool's exit and output.
pub fn keychain_get(success: bool, stdout: &str, stderr: &str) -> (r: Result<String, Error>)
    ensures
        text_result(r) == get_result(success, stdout@, stderr@),
{
    if success {
        Ok(strip_line_end(stdout))
    } else if absent(stderr) {
        Err(Error::NotFound)
    } else {
        Err(Error::Store(trim(stderr)))
    }
}

/// Reads the result of storing from the tool's exit; `status` is the text
/// of its exit status.
pub fn keychain_set(success: bool, status: &str) -> (r: Result<(), Error>)
    ensures
        unit_result(r) == set_result(success, status@),
{
    if success {
        Ok(())
    } else {
        Err(Error::Store(String::from_str(status)))
    }
}

/// Reads the result of deleting from the tool's exit and diagnostic.
pub fn keychain_delete(success: bool, stderr: &str) -> (r: Result<(), Error>)
    ensures
        unit_result(r) == delete_result(success, stderr@),
{
    if success || absent(stderr) {
        Ok(())
    } else {
        Err(Error::Store(trim(stderr)))
    }
}

/// What a store that held `vault` holds after its tool ran with `args`:
/// the arguments for storing put the value under the key, in place of an
/// older one; the arguments for deleting take away what is under the key; a
/// lookup changes nothing.
pub open spec fn store_after(vault: Map<Pair, Seq<char>>, args: Seq<Seq<char>>) -> Map<
    Pair,
    Seq<char>,
> {
    if args.len() == 8 && args[0] == "add-generic-password"@ {
        vault.insert((args[2], args[4]), args[6])
    } else if args.len() == 5 && args[0] == "delete-generic-password"@ {
        vault.remove((args[2], args[4]))
    } else {
        vault
    }
}

/// Whether the tool answers a lookup under `key` as a store that holds
/// `vault` does: with the value and a line feed after it on its output, or
/// with a failure whose diagnostic says that nothing is stored there.
pub open spec fn lookup_answer(
    vault: Map<Pair, Seq<char>>,
    key: Pair,
    success: bool,
    stdout: Seq<char>,
    stderr: Seq<char>,
) -> bool {
    if vault.contains_key(key) {
        success && stdout == vault[key] + seq!['\n']
    } else {
        !success && reports_absent(stderr)
    }
}

/// Whether the tool answers a deletion under `key` as a store that holds
/// `vault` does: with success, or with a failure whose diagnostic says that
/// nothing is stored there.
pub open spec fn delete_answer(
    vault: Map<Pair, Seq<char>>,
    key: Pair,
    success: bool,
    stderr: Seq<char>,
) -> bool {
    if vault.contains_key(key) {
        success
    } else {
        !success && reports_absent(stderr)
    }
}

/// A lookup after a value was stored under the same key gives that value
/// without the line ends at its end, so the value itself where it does not
/// end in one. This holds of a store whose tool answers as `lookup_answer` says.
pub proof fn lemma_get_after_set(
    vault: Map<Pair, Seq<char>>,
    account: Seq<char>,
    service: Seq<char>,
    value: Seq<char>,
    success: bool,
    stdout: Seq<char>,
    stderr: Seq<char>,
)
    requires
        lookup_answer(
            store_after(vault, set_args(account, service, value)),
            (account, service),
            success,
            stdout,
            stderr,
        ),
    ensures
        get_result(success, stdout, stderr) == Ok::<Seq<char>, Fault>(without_line_end(value)),
        value.len() == 0 || !is_line_end(value.last()) ==> get_result(success, stdout, stderr)
            == Ok::<Seq<char>, Fault>(value),
{
    assert(stdout.last() == '\n');
    assert(stdout.drop_last() == value);
    if value.len() == 0 || !is_line_end(value.last()) {
        assert(without_line_end(value) == value);
    }
}

/// A lookup after a value was stored and deleted under the same key finds
/// nothing. This holds of a store whose tool answers as `lookup_answer` says.
pub proof fn lemma_get_after_delete(
    vault: Map<Pair, Seq<char>>,
    account: Seq<char>,
    service: Seq<char>,
    value: Seq<char>,
    success: bool,
    stdout: Seq<char>,
    stderr: Seq<char>,
)
    requires
        lookup_answer(
            store_after(
                store_after(vault, set_args(account, service, value)),
                delete_args(account, service),
            ),
            (account, service),
            success,
            stdout,
            stderr,
        ),
    ensures
        get_result(success, stdout, stderr) == Err::<Seq<char>, Fault>(Fault::NotFound),
{
}

/// Deleting under a key that holds nothing succeeds, and leaves the store
/// as it was. This holds of a store whose tool answers as `delete_answer` says.
pub proof fn lemma_delete_absent(
    vault: Map<Pair, Seq<char>>,
    account: Seq<char>,
    service: Seq<char>,
    success: bool,
    stderr: Seq<char>,
)
    requires
        !vault.contains_key((account, service)),
        delete_answer(vault, (account, service), success, stderr),
    ensures
        delete_result(success, stderr) == Ok::<(), Fault>(()),
        store_after(vault, delete_args(account, service)) == vault,
{
    assert(vault.remove((account, service)) =~= vault);
}

} // verus!
