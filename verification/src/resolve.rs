//! Which account a command works on, and where the secret that is to be
//! stored comes from.

use crate::error::{text_result, Error, Fault};
use crate::text::{blank, is_blank, strip_line_end, trim, trimmed, without_line_end};
use vstd::prelude::*;
use vstd::string::StringExecFns;

verus! {

/// The text of an optional string.
pub open spec fn text_of(v: Option<&str>) -> Option<Seq<char>> {
    match v {
        Some(s) => Some(s@),
        None => None,
    }
}

/// The text of an optional owned string.
pub open spec fn owned_text(v: Option<String>) -> Option<Seq<char>> {
    match v {
        Some(s) => Some(s@),
        None => None,
    }
}

/// Whether a value is there and holds more than white space.
pub open spec fn given(v: Option<Seq<char>>) -> bool {
    v is Some && !is_blank(v->0)
}

/// The account as far as it is known without asking the system: the
/// explicit value, trimmed, where one is given; else the user named by the
/// environment, as it stands, where one is given; else none.
pub open spec fn account_of(explicit: Option<Seq<char>>, env_user: Option<Seq<char>>) -> Option<
    Seq<char>,
> {
    if given(explicit) {
        Some(trimmed(explicit->0))
    } else if given(env_user) {
        Some(env_user->0)
    } else {
        None
    }
}

/// The account that the system's answer to "who is the current user" names:
/// its output without the line ends at its end; a failure where the query failed.
pub open spec fn queried_account(success: bool, stdout: Seq<char>) -> Result<Seq<char>, Fault> {
    if success {
        Ok(without_line_end(stdout))
    } else {
        Err(Fault::AccountResolution)
    }
}

/// Resolves the account from the explicit value and the environment's user.
/// Returns `None` where neither names one and the system has to be asked.
pub fn resolve_account(explicit: Option<&str>, env_user: Option<&str>) -> (r: Option<String>)
    ensures
        owned_text(r) == account_of(text_of(explicit), text_of(env_user)),
{
    if let Some(value) = explicit {
        if !blank(value) {
            return Some(trim(value));
        }
    }
    if let Some(user) = env_user {
        if !blank(user) {
            return Some(String::from_str(user));
        }
    }
    None
}

/// Resolves the account from the system's answer: `success` says whether the
/// query ran and ended well, `stdout` is what it printed.
pub fn resolve_queried_account(success: bool, stdout: &str) -> (r: Result<String, Error>)
    ensures
        text_result(r) == queried_account(success, stdout@),
{
    if success {
        Ok(strip_line_end(stdout))
    } else {
        Err(Error::AccountResolution)
    }
}

/// Where the secret that is to be stored comes from.
#[derive(Clone, Copy, Debug, PartialEq, Eq, Structural)]
pub enum SecretSource {
    /// The value that was given with the command.
    Explicit,
    /// All of standard input.
    Stdin,
    /// A prompt that does not show what is typed.
    Prompt,
}

/// The source of the secret. At most one of an explicit value, the flag for
/// standard input and the flag for a prompt may be given. An explicit value
/// comes first; then standard input, where its flag is given, or where it is
/// no terminal and no prompt is asked for; then the prompt, where its flag
/// is given or standard input is a terminal.
pub open spec fn secret_source_of(
    has_value: bool,
    stdin_flag: bool,
    prompt_flag: bool,
    interactive: bool,
) -> Result<SecretSource, Fault> {
    if (has_value && stdin_flag) || (has_value && prompt_flag) || (stdin_flag && prompt_flag) {
        Err(Fault::Usage)
    } else if has_value {
        Ok(SecretSource::Explicit)
    } else if stdin_flag || (!interactive && !prompt_flag) {
        Ok(SecretSource::Stdin)
    } else if prompt_flag || interactive {
        Ok(SecretSource::Prompt)
    } else {
        Err(Fault::MissingSecretInput)
    }
}

/// A result that holds a source, with its error's text as a sequence of characters.
pub open spec fn source_result(r: Result<SecretSource, Error>) -> Result<SecretSource, Fault> {
    match r {
        Ok(s) => Ok(s),
        Err(e) => Err(e@),
    }
}

/// Chooses the source of the secret. `interactive` says whether standard
/// input is a terminal.
pub fn secret_source(has_value: bool, stdin_flag: bool, prompt_flag: bool, interactive: bool) -> (r:
    Result<SecretSource, Error>)
    ensures
        source_result(r) == secret_source_of(has_value, stdin_flag, prompt_flag, interactive),
{
    if (has_value && stdin_flag) || (has_value && prompt_flag) || (stdin_flag && prompt_flag) {
        Err(Error::Usage)
    } else if has_value {
        Ok(SecretSource::Explicit)
    } else if stdin_flag || (!interactive && !prompt_flag) {
        Ok(SecretSource::Stdin)
    } else if prompt_flag || interactive {
        Ok(SecretSource::Prompt)
    } else {
        Err(Error::MissingSecretInput)
    }
}

/// The secret that `raw` stands for when it comes from `source`: standard
/// input without the line ends at its end; an explicit value and a
/// prompted one as they are.
pub open spec fn secret_of(source: SecretSource, raw: Seq<char>) -> Seq<char> {
    match source {
        SecretSource::Stdin => without_line_end(raw),
        _ => raw,
    }
}

/// Resolves the secret from what its source supplied.
pub fn resolve_secret_value(source: SecretSource, raw: &str) -> (r: String)
    ensures
        r@ == secret_of(source, raw@),
{
    match source {
        SecretSource::Stdin => strip_line_end(raw),
        _ => String::from_str(raw),
    }
}

/// An explicit account that holds more than white space is the account,
/// whatever the environment names.
pub proof fn lemma_explicit_account_first(explicit: Seq<char>, env_user: Option<Seq<char>>)
    requires
        !is_blank(explicit),
    ensures
        account_of(Some(explicit), env_user) == Some(trimmed(explicit)),
{
}

/// Where at most one source is named for the secret, a source is chosen.
pub proof fn lemma_source_chosen(
    has_value: bool,
    stdin_flag: bool,
    prompt_flag: bool,
    interactive: bool,
)
    ensures
        secret_source_of(has_value, stdin_flag, prompt_flag, interactive) is Ok
            || secret_source_of(has_value, stdin_flag, prompt_flag, interactive) == Err::<
            SecretSource,
            Fault,
        >(Fault::Usage),
{
}

} // verus!
