//! The logic of a command-line manager for secrets in the system's keychain.
//!
//! The secrets themselves live in the keychain, which is reached through
//! its command-line tool. Beside it the manager keeps a registry: a small
//! text file that lists, for each account, the services for which a secret
//! was stored.
//!
//! - [`resolve`] decides which account a command works on and where the
//!   secret that is to be stored comes from.
//! - [`keychain`] builds the arguments of the tool and reads its answers.
//! - [`registry`], [`records`] and [`persist`] hold the registry, the
//!   format of its file, and the operations from file contents to file
//!   contents; [`location`] says where the file lies.
//! - [`session`] runs one command as a sequence of steps, each of which
//!   names what is to be done outside.
//! - [`text`] and [`lexical`] hold what these need of texts: trimming,
//!   searching, splitting into lines, and the order of names.
//!
//! Nothing here reads or writes anything. The caller runs the tool, reads
//! the terminal and the files, and hands in what it found.

pub mod error;
pub mod keychain;
pub mod lexical;
pub mod location;
pub mod persist;
pub mod records;
pub mod registry;
pub mod resolve;
pub mod session;
pub mod text;
