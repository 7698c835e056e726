//! The ways in which a command fails.

use vstd::prelude::*;
use vstd::string::StringExecFns;

verus! {

/// Why a command failed.
#[derive(Debug, PartialEq, Eq)]
pub enum Error {
    /// More than one source was named for the secret.
    Usage,
    /// The account could not be determined.
    AccountResolution,
    /// No source supplies the secret that is to be stored.
    MissingSecretInput,
    /// The secret store holds nothing under the account and service.
    NotFound,
    /// The secret store's tool failed; the text is its diagnostic, trimmed.
    Store(String),
    /// Reading or writing failed outside; the text says what.
    Io(String),
}

/// An error with its text as a sequence of characters.
pub enum Fault {
    /// More than one source was named for the secret.
    Usage,
    /// The account could not be determined.
    AccountResolution,
    /// No source supplies the secret that is to be stored.
    MissingSecretInput,
    /// The secret store holds nothing under the account and service.
    NotFound,
    /// The secret store's tool failed.
    Store(Seq<char>),
    /// Reading or writing failed outside.
    Io(Seq<char>),
}

impl View for Error {
    type V = Fault;

    /// The error as a fault.
    open spec fn view(&self) -> Fault {
        match self {
            Error::Usage => Fault::Usage,
            Error::AccountResolution => Fault::AccountResolution,
            Error::MissingSecretInput => Fault::MissingSecretInput,
            Error::NotFound => Fault::NotFound,
            Error::Store(text) => Fault::Store(text@),
            Error::Io(text) => Fault::Io(text@),
        }
    }
}

/// The message that is shown for a fault.
pub open spec fn message_of(f: Fault) -> Seq<char> {
    match f {
        Fault::Usage => "use only one of --value, --stdin and --prompt"@,
        Fault::AccountResolution => "failed to determine account"@,
        Fault::MissingSecretInput =>
            "No secret provided. Use --value, --stdin, or --prompt (or pipe data)."@,
        Fault::NotFound => "secret not found"@,
        Fault::Store(text) => "security command failed: "@ + text,
        Fault::Io(text) => text,
    }
}

impl Error {
    /// The message that is shown for the error.
    pub fn message(&self) -> (r: String)
        ensures
            r@ == message_of(self@),
    {
        match self {
            Error::Usage => String::from_str("use only one of --value, --stdin and --prompt"),
            Error::AccountResolution => String::from_str("failed to determine account"),
            Error::MissingSecretInput => String::from_str(
                "No secret provided. Use --value, --stdin, or --prompt (or pipe data).",
            ),
            Error::NotFound => String::from_str("secret not found"),
            Error::Store(text) => String::from_str("security command failed: ").concat(
                text.as_str(),
            ),
            Error::Io(text) => text.clone(),
        }
    }
}

/// A result with its texts as sequences of characters.
pub open spec fn text_result(r: Result<String, Error>) -> Result<Seq<char>, Fault> {
    match r {
        Ok(v) => Ok(v@),
        Err(e) => Err(e@),
    }
}

/// A result without a value, with its error's text as a sequence of characters.
pub open spec fn unit_result(r: Result<(), Error>) -> Result<(), Fault> {
    match r {
        Ok(_) => Ok(()),
        Err(e) => Err(e@),
    }
}

} // verus!
