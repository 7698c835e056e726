//! One command from start to end, as a sequence of steps. Each step names
//! the next thing to do outside (ask the system, run the store's tool, read
//! or write the registry file) and waits for its result, so that the
//! registry changes only after the secret store has.

use crate::error::{Error, Fault};
use crate::keychain::{
    delete_args, delete_result, get_args, get_result, keychain_delete, keychain_delete_args,
    keychain_get, keychain_get_args, keychain_set, keychain_set_args, set_args, set_result,
};
use crate::persist::{loaded, registry_add, registry_list, registry_remove, saved};
use crate::registry::{in_order, listed, mapping, names};
use crate::resolve::{
    account_of, owned_text, queried_account, resolve_account, resolve_queried_account,
    resolve_secret_value, secret_of, secret_source, secret_source_of, text_of, SecretSource,
};
use vstd::prelude::*;
use vstd::string::StringExecFns;

verus! {

/// What a command does.
#[derive(Clone, Copy, Debug, PartialEq, Eq, Structural)]
pub enum Op {
    /// Print a secret.
    Get,
    /// Store a secret.
    Put,
    /// Delete a secret.
    Delete,
    /// List the services that are known for the account.
    List,
}

/// A command as it was given.
#[derive(Debug, PartialEq, Eq)]
pub enum Command {
    /// Print the secret of `service`.
    Get { service: String, account: Option<String> },
    /// Store a secret for `service`: the `value`, or what standard input or
    /// a prompt supplies.
    Put {
        service: String,
        account: Option<String>,
        value: Option<String>,
        stdin: bool,
        prompt: bool,
    },
    /// Delete the secret of `service`; `yes` answers the question beforehand.
    Delete { service: String, account: Option<String>, yes: bool },
    /// List the services of the account.
    List { account: Option<String> },
}

impl Command {
    /// What the command does.
    pub open spec fn op(self) -> Op {
        match self {
            Command::Get { .. } => Op::Get,
            Command::Put { .. } => Op::Put,
            Command::Delete { .. } => Op::Delete,
            Command::List { .. } => Op::List,
        }
    }

    /// The service that the command names; the empty text for a listing.
    pub open spec fn service(self) -> Seq<char> {
        match self {
            Command::Get { service, .. } => service@,
            Command::Put { service, .. } => service@,
            Command::Delete { service, .. } => service@,
            Command::List { .. } => Seq::empty(),
        }
    }

    /// The account that the command names, if it names one.
    pub open spec fn account(self) -> Option<Seq<char>> {
        match self {
            Command::Get { account, .. } => owned_text(account),
            Command::Put { account, .. } => owned_text(account),
            Command::Delete { account, .. } => owned_text(account),
            Command::List { account } => owned_text(account),
        }
    }

    /// The secret that the command holds, if it holds one.
    pub open spec fn value(self) -> Option<Seq<char>> {
        match self {
            Command::Put { value, .. } => owned_text(value),
            _ => None,
        }
    }

    /// Whether the command asks for the secret from standard input.
    pub open spec fn stdin(self) -> bool {
        match self {
            Command::Put { stdin, .. } => stdin,
            _ => false,
        }
    }

    /// Whether the command asks for a prompt.
    pub open spec fn prompt(self) -> bool {
        match self {
            Command::Put { prompt, .. } => prompt,
            _ => false,
        }
    }

    /// Whether the command answers the question before a deletion with yes.
    pub open spec fn yes(self) -> bool {
        match self {
            Command::Delete { yes, .. } => yes,
            _ => false,
        }
    }
}

/// How far a command has come: what it waits for.
#[derive(Clone, Copy, Debug, PartialEq, Eq, Structural)]
pub enum Stage {
    /// For the system to name the current user.
    AwaitUser,
    /// For the secret from standard input or from a prompt.
    AwaitSecret,
    /// For the answer to the question before a deletion.
    AwaitAnswer,
    /// For the store's tool to end.
    AwaitTool,
    /// For the contents of the registry file.
    AwaitRegistry,
    /// For the registry file to be written.
    AwaitSave,
    /// For nothing: the command has ended.
    Done,
}

/// What is to be done outside before the next step.
#[derive(Debug, PartialEq, Eq)]
pub enum Action {
    /// Ask the system for the current user.
    AskUser,
    /// Read all of standard input.
    ReadStdin,
    /// Ask for the secret with this prompt, without showing what is typed.
    Prompt(String),
    /// Ask this question, to be answered with yes or no; no is the default.
    Confirm(String),
    /// Run the store's tool with these arguments.
    Run(Vec<String>),
    /// Read the registry file.
    LoadRegistry,
    /// Replace the contents of the registry file with this text.
    SaveRegistry(String),
    /// Print these lines and end with success.
    Finish(Vec<String>),
    /// End with this error.
    Fail(Error),
}

/// An action with its texts as sequences of characters.
pub enum Plan {
    /// Ask the system for the current user.
    AskUser,
    /// Read all of standard input.
    ReadStdin,
    /// Ask for the secret with this prompt.
    Prompt(Seq<char>),
    /// Ask this question.
    Confirm(Seq<char>),
    /// Run the store's tool with these arguments.
    Run(Seq<Seq<char>>),
    /// Read the registry file.
    LoadRegistry,
    /// Replace the contents of the registry file with this text.
    SaveRegistry(Seq<char>),
    /// Print these lines and end with success.
    Finish(Seq<Seq<char>>),
    /// End with this fault.
    Fail(Fault),
}

impl View for Action {
    type V = Plan;

    /// The action as a plan.
    open spec fn view(&self) -> Plan {
        match self {
            Action::AskUser => Plan::AskUser,
            Action::ReadStdin => Plan::ReadStdin,
            Action::Prompt(text) => Plan::Prompt(text@),
            Action::Confirm(text) => Plan::Confirm(text@),
            Action::Run(args) => Plan::Run(names(args@)),
            Action::LoadRegistry => Plan::LoadRegistry,
            Action::SaveRegistry(text) => Plan::SaveRegistry(text@),
            Action::Finish(lines) => Plan::Finish(names(lines@)),
            Action::Fail(e) => Plan::Fail(e@),
        }
    }
}

/// What came of the action that the last step named.
#[derive(Debug, PartialEq, Eq)]
pub enum Event {
    /// The system was asked for the current user: whether the query ended
    /// well, and what it printed.
    User { success: bool, stdout: String },
    /// The secret as it was read from standard input or typed at the prompt.
    Secret(String),
    /// The answer to the question before a deletion.
    Answer(bool),
    /// The store's tool has run: whether it ended well, what it printed, its
    /// diagnostic, and its exit status as a text.
    Tool { success: bool, stdout: String, stderr: String, status: String },
    /// The contents of the registry file; `None` where it is not there or
    /// cannot be read.
    Registry(Option<String>),
    /// The registry file was written.
    Saved,
    /// The action could not be carried out; the text says why.
    Failed(String),
}

/// An event with its texts as sequences of characters.
pub enum Signal {
    /// The system was asked for the current user.
    User { success: bool, stdout: Seq<char> },
    /// The secret as it was read.
    Secret(Seq<char>),
    /// The answer to the question before a deletion.
    Answer(bool),
    /// The store's tool has run.
    Tool { success: bool, stdout: Seq<char>, stderr: Seq<char>, status: Seq<char> },
    /// The contents of the registry file, if it could be read.
    Registry(Option<Seq<char>>),
    /// The registry file was written.
    Saved,
    /// The action could not be carried out.
    Failed(Seq<char>),
}

impl View for Event {
    type V = Signal;

    /// The event as a signal.
    open spec fn view(&self) -> Signal {
        match self {
            Event::User { success, stdout } => Signal::User { success: *success, stdout: stdout@ },
            Event::Secret(raw) => Signal::Secret(raw@),
            Event::Answer(yes) => Signal::Answer(*yes),
            Event::Tool { success, stdout, stderr, status } => Signal::Tool {
                success: *success,
                stdout: stdout@,
                stderr: stderr@,
                status: status@,
            },
            Event::Registry(contents) => Signal::Registry(owned_text(*contents)),
            Event::Saved => Signal::Saved,
            Event::Failed(text) => Signal::Failed(text@),
        }
    }
}

/// The state of a command between two steps.
pub struct State {
    /// What the command does.
    pub op: Op,
    /// What the command waits for.
    pub stage: Stage,
    /// The service that the command names.
    pub service: Seq<char>,
    /// The account, once it is known.
    pub account: Seq<char>,
    /// The secret that is to be stored, once it is known.
    pub secret: Seq<char>,
    /// Where the secret comes from.
    pub source: SecretSource,
    /// Whether a deletion goes ahead without a question.
    pub yes: bool,
}

impl State {
    /// The state at another stage.
    pub open spec fn at(self, stage: Stage) -> State {
        State { stage, ..self }
    }

    /// Whether the stage is one that the command can come to: only a `Put`
    /// waits for a secret or, with a `Delete`, for the file to be written;
    /// only a `Delete` waits for an answer; a `List` never waits for the
    /// tool, a `Get` never for the registry.
    pub open spec fn consistent(self) -> bool {
        match self.stage {
            Stage::AwaitUser => true,
            Stage::AwaitSecret => self.op == Op::Put,
            Stage::AwaitAnswer => self.op == Op::Delete,
            Stage::AwaitTool => self.op != Op::List,
            Stage::AwaitRegistry => self.op != Op::Get,
            Stage::AwaitSave => self.op == Op::Put || self.op == Op::Delete,
            Stage::Done => true,
        }
    }

    /// Whether `signal` is the event that the stage waits for.
    pub open spec fn expects(self, signal: Signal) -> bool {
        match (self.stage, signal) {
            (Stage::AwaitUser, Signal::User { .. }) => true,
            (Stage::AwaitSecret, Signal::Secret(_)) => true,
            (Stage::AwaitAnswer, Signal::Answer(_)) => true,
            (Stage::AwaitTool, Signal::Tool { .. }) => true,
            (Stage::AwaitRegistry, Signal::Registry(_)) => true,
            (Stage::AwaitSave, Signal::Saved) => true,
            (Stage::Done, _) => false,
            (_, Signal::Failed(_)) => true,
            _ => false,
        }
    }
}

/// The line that says that a secret was stored.
pub open spec fn saved_message(service: Seq<char>, account: Seq<char>) -> Seq<char> {
    "Saved secret for service `"@ + service + "` (account "@ + account + ")."@
}

/// The line that says that a secret was deleted.
pub open spec fn removed_message(service: Seq<char>, account: Seq<char>) -> Seq<char> {
    "Removed secret for service `"@ + service + "` (account "@ + account + ")."@
}

/// The question before a deletion.
pub open spec fn removal_question(service: Seq<char>, account: Seq<char>) -> Seq<char> {
    "Remove keychain secret for service `"@ + service + "` (account "@ + account + ")?"@
}

/// The line that says that no service is known for the account.
pub open spec fn none_message(account: Seq<char>) -> Seq<char> {
    "No tracked secrets for account "@ + account + "."@
}

/// The lines of a listing: the services that the file lists for the
/// account in ascending order, one on each line, or the line that says
/// that there are none.
pub open spec fn listing(contents: Option<Seq<char>>, account: Seq<char>) -> Seq<Seq<char>> {
    let services = listed(in_order(loaded(contents)), account);
    if services.len() == 0 {
        seq![none_message(account)]
    } else {
        services
    }
}

/// The step that follows once the account is known. A `Get` runs the
/// lookup. A `Put` runs the tool where it has the secret, and else asks for
/// the secret. A `Delete` runs the tool where the answer is given
/// beforehand, and else asks. A `List` reads the registry file.
pub open spec fn enter(s: State) -> (State, Plan) {
    match s.op {
        Op::Get => (s.at(Stage::AwaitTool), Plan::Run(get_args(s.account, s.service))),
        Op::Put => match s.source {
            SecretSource::Explicit => (
                s.at(Stage::AwaitTool),
                Plan::Run(set_args(s.account, s.service, s.secret)),
            ),
            SecretSource::Stdin => (s.at(Stage::AwaitSecret), Plan::ReadStdin),
            SecretSource::Prompt => (s.at(Stage::AwaitSecret), Plan::Prompt("Secret value: "@)),
        },
        Op::Delete => if s.yes {
            (s.at(Stage::AwaitTool), Plan::Run(delete_args(s.account, s.service)))
        } else {
            (s.at(Stage::AwaitAnswer), Plan::Confirm(removal_question(s.service, s.account)))
        },
        Op::List => (s.at(Stage::AwaitRegistry), Plan::LoadRegistry),
    }
}

/// The first step of a command. `user` is the user that the environment
/// names, `interactive` says whether standard input is a terminal. A `Put`
/// that names more than one source for its secret fails at once. Else the
/// account is resolved; where neither the command nor the environment
/// names one, the system is asked.
pub open spec fn start(command: Command, user: Option<Seq<char>>, interactive: bool) -> (
    State,
    Plan,
) {
    let source = secret_source_of(
        command.value() is Some,
        command.stdin(),
        command.prompt(),
        interactive,
    );
    let s = State {
        op: command.op(),
        stage: Stage::Done,
        service: command.service(),
        account: Seq::empty(),
        secret: if command.value() is Some {
            command.value()->0
        } else {
            Seq::empty()
        },
        source: if source is Ok {
            source->Ok_0
        } else {
            SecretSource::Explicit
        },
        yes: command.yes(),
    };
    if command.op() == Op::Put && source is Err {
        (s, Plan::Fail(source->Err_0))
    } else {
        match account_of(command.account(), user) {
            Some(account) => enter(State { account, ..s }),
            None => (s.at(Stage::AwaitUser), Plan::AskUser),
        }
    }
}

/// The step that follows the event that the stage waits for.
///
/// The user that the system names becomes the account; a failed query ends
/// the command. The secret that was read is stored. A deletion goes ahead
/// on yes and ends on no, with success and the line `Aborted.`. When the
/// tool has run, a `Get` prints the value or fails; a `Put` and a `Delete`
/// go on to the registry only where the store has done its part, and fail
/// else. With the contents of the registry file, a `Put` writes the file
/// with its service added; a `Delete` writes it with its service taken
/// away, or leaves it alone where the account is not in it; a `List`
/// prints. When the file is written, the command says what it has done.
pub open spec fn advance(s: State, signal: Signal) -> (State, Plan) {
    let done = s.at(Stage::Done);
    match signal {
        Signal::User { success, stdout } => match queried_account(success, stdout) {
            Ok(account) => enter(State { account, ..s }),
            Err(f) => (done, Plan::Fail(f)),
        },
        Signal::Secret(raw) => {
            let secret = secret_of(s.source, raw);
            (
                State { secret, ..s }.at(Stage::AwaitTool),
                Plan::Run(set_args(s.account, s.service, secret)),
            )
        },
        Signal::Answer(yes) => if yes {
            (s.at(Stage::AwaitTool), Plan::Run(delete_args(s.account, s.service)))
        } else {
            (done, Plan::Finish(seq!["Aborted."@]))
        },
        Signal::Tool { success, stdout, stderr, status } => match s.op {
            Op::Get => match get_result(success, stdout, stderr) {
                Ok(value) => (done, Plan::Finish(seq![value])),
                Err(f) => (done, Plan::Fail(f)),
            },
            Op::Put => match set_result(success, status) {
                Ok(_) => (s.at(Stage::AwaitRegistry), Plan::LoadRegistry),
                Err(f) => (done, Plan::Fail(f)),
            },
            _ => match delete_result(success, stderr) {
                Ok(_) => (s.at(Stage::AwaitRegistry), Plan::LoadRegistry),
                Err(f) => (done, Plan::Fail(f)),
            },
        },
        Signal::Registry(contents) => match s.op {
            Op::Put => (
                s.at(Stage::AwaitSave),
                Plan::SaveRegistry(saved(loaded(contents).insert((s.account, s.service)))),
            ),
            Op::Delete => if mapping(loaded(contents)).contains_key(s.account) {
                (
                    s.at(Stage::AwaitSave),
                    Plan::SaveRegistry(saved(loaded(contents).remove((s.account, s.service)))),
                )
            } else {
                (done, Plan::Finish(seq![removed_message(s.service, s.account)]))
            },
            _ => (done, Plan::Finish(listing(contents, s.account))),
        },
        Signal::Saved => match s.op {
            Op::Put => (done, Plan::Finish(seq![saved_message(s.service, s.account)])),
            _ => (done, Plan::Finish(seq![removed_message(s.service, s.account)])),
        },
        Signal::Failed(text) => if s.stage == Stage::AwaitUser {
            (done, Plan::Fail(Fault::AccountResolution))
        } else {
            (done, Plan::Fail(Fault::Io(text)))
        },
    }
}

/// The registry file is written only after it was read, and a command that
/// changes the registry reads it only after the store's tool has run and
/// the store has done its part.
pub proof fn lemma_registry_follows_store(s: State, signal: Signal)
    requires
        s.consistent(),
        s.expects(signal),
    ensures
        advance(s, signal).1 is SaveRegistry ==> s.stage == Stage::AwaitRegistry,
        s.op != Op::List && advance(s, signal).0.stage == Stage::AwaitRegistry ==> signal is Tool
            && match s.op {
            Op::Put => set_result(signal->Tool_success, signal->Tool_status) is Ok,
            _ => delete_result(signal->Tool_success, signal->Tool_stderr) is Ok,
        },
{
}

/// A step keeps a state consistent, and after the last one nothing is expected.
pub proof fn lemma_advance_consistent(s: State, signal: Signal)
    requires
        s.consistent(),
        s.expects(signal),
    ensures
        advance(s, signal).0.consistent(),
        advance(s, signal).1 is Finish || advance(s, signal).1 is Fail <==> advance(
            s,
            signal,
        ).0.stage == Stage::Done,
{
}

/// The texts `head`, `service`, `middle`, `account` and `tail` in one line.
fn line(head: &str, service: &str, middle: &str, account: &str, tail: &str) -> (r: String)
    ensures
        r@ == head@ + service@ + middle@ + account@ + tail@,
{
    String::from_str(head).concat(service).concat(middle).concat(account).concat(tail)
}

/// A command on its way from start to end.
pub struct Session {
    op: Op,
    stage: Stage,
    service: String,
    account: String,
    secret: String,
    source: SecretSource,
    yes: bool,
}

impl View for Session {
    type V = State;

    /// The state that the session is in.
    closed spec fn view(&self) -> State {
        State {
            op: self.op,
            stage: self.stage,
            service: self.service@,
            account: self.account@,
            secret: self.secret@,
            source: self.source,
            yes: self.yes,
        }
    }
}

impl Session {
    /// The session's invariant: its stage is one that its command can come to.
    pub open spec fn well_formed(&self) -> bool {
        self@.consistent()
    }

    /// What the session waits for.
    pub fn stage(&self) -> (r: Stage)
        ensures
            r == self@.stage,
    {
        self.stage
    }

    /// Tests whether `event` is the event that the session waits for.
    pub fn expects(&self, event: &Event) -> (r: bool)
        ensures
            r == self@.expects(event@),
    {
        match (self.stage, event) {
            (Stage::AwaitUser, Event::User { .. }) => true,
            (Stage::AwaitSecret, Event::Secret(_)) => true,
            (Stage::AwaitAnswer, Event::Answer(_)) => true,
            (Stage::AwaitTool, Event::Tool { .. }) => true,
            (Stage::AwaitRegistry, Event::Registry(_)) => true,
            (Stage::AwaitSave, Event::Saved) => true,
            (Stage::Done, _) => false,
            (_, Event::Failed(_)) => true,
            _ => false,
        }
    }

    /// Takes the step that follows once the account is known.
    fn enter(&mut self) -> (action: Action)
        ensures
            final(self).well_formed(),
            (final(self)@, action@) == enter(old(self)@),
    {
        match self.op {
            Op::Get => {
                self.stage = Stage::AwaitTool;
                Action::Run(keychain_get_args(self.account.as_str(), self.service.as_str()))
            },
            Op::Put => match self.source {
                SecretSource::Explicit => {
                    self.stage = Stage::AwaitTool;
                    Action::Run(
                        keychain_set_args(
                            self.account.as_str(),
                            self.service.as_str(),
                            self.secret.as_str(),
                        ),
                    )
                },
                SecretSource::Stdin => {
                    self.stage = Stage::AwaitSecret;
                    Action::ReadStdin
                },
                SecretSource::Prompt => {
                    self.stage = Stage::AwaitSecret;
                    Action::Prompt(String::from_str("Secret value: "))
                },
            },
            Op::Delete => if self.yes {
                self.stage = Stage::AwaitTool;
                Action::Run(keychain_delete_args(self.account.as_str(), self.service.as_str()))
            } else {
                self.stage = Stage::AwaitAnswer;
                Action::Confirm(
                    line(
                        "Remove keychain secret for service `",
                        self.service.as_str(),
                        "` (account ",
                        self.account.as_str(),
                        ")?",
                    ),
                )
            },
            Op::List => {
                self.stage = Stage::AwaitRegistry;
                Action::LoadRegistry
            },
        }
    }

    /// Starts a command and takes its first step. `user` is the user that
    /// the environment names, `interactive` says whether standard input is
    /// a terminal.
    pub fn begin(command: Command, user: Option<&str>, interactive: bool) -> (r: (Session, Action))
        ensures
            r.0.well_formed(),
            (r.0@, r.1@) == start(command, text_of(user), interactive),
    {
        let ghost given = command;
        let (op, service, account, value, stdin, prompt, yes) = match command {
            Command::Get { service, account } => (Op::Get, service, account, None, false, false, false),
            Command::Put { service, account, value, stdin, prompt } => (
                Op::Put,
                service,
                account,
                value,
                stdin,
                prompt,
                false,
            ),
            Command::Delete { service, account, yes } => (
                Op::Delete,
                service,
                account,
                None,
                false,
                false,
                yes,
            ),
            Command::List { account } => (Op::List, String::new(), account, None, false, false, false),
        };
        let chosen = secret_source(value.is_some(), stdin, prompt, interactive);
        let secret = match value {
            Some(v) => v,
            None => String::new(),
        };
        let mut session = Session {
            op,
            stage: Stage::Done,
            service,
            account: String::new(),
            secret,
            source: SecretSource::Explicit,
            yes,
        };
        match chosen {
            Ok(source) => {
                session.source = source;
            },
            Err(e) => {
                if let Op::Put = op {
                    return (session, Action::Fail(e));
                }
            },
        }
        let explicit = match &account {
            Some(a) => Some(a.as_str()),
            None => None,
        };
        match resolve_account(explicit, user) {
            Some(a) => {
                session.account = a;
                let action = session.enter();
                (session, action)
            },
            None => {
                session.stage = Stage::AwaitUser;
                (session, Action::AskUser)
            },
        }
    }

    /// Takes the step that follows `event`, which has to be the event that
    /// the session waits for.
    pub fn step(&mut self, event: Event) -> (action: Action)
        requires
            old(self).well_formed(),
            old(self)@.expects(event@),
        ensures
            final(self).well_formed(),
            (final(self)@, action@) == advance(old(self)@, event@),
    {
        match event {
            Event::User { success, stdout } => {
                match resolve_queried_account(success, stdout.as_str()) {
                    Ok(a) => {
                        self.account = a;
                        self.enter()
                    },
                    Err(e) => {
                        self.stage = Stage::Done;
                        Action::Fail(e)
                    },
                }
            },
            Event::Secret(raw) => {
                self.secret = resolve_secret_value(self.source, raw.as_str());
                self.stage = Stage::AwaitTool;
                Action::Run(
                    keychain_set_args(
                        self.account.as_str(),
                        self.service.as_str(),
                        self.secret.as_str(),
                    ),
                )
            },
            Event::Answer(yes) => {
                if yes {
                    self.stage = Stage::AwaitTool;
                    Action::Run(keychain_delete_args(self.account.as_str(), self.service.as_str()))
                } else {
                    self.stage = Stage::Done;
                    let mut lines: Vec<String> = Vec::new();
                    lines.push(String::from_str("Aborted."));
                    assert(names(lines@) =~= seq!["Aborted."@]);
                    Action::Finish(lines)
                }
            },
            Event::Tool { success, stdout, stderr, status } => {
                let outcome = match self.op {
                    Op::Get => match keychain_get(success, stdout.as_str(), stderr.as_str()) {
                        Ok(value) => {
                            let mut lines: Vec<String> = Vec::new();
                            lines.push(value);
                            assert(names(lines@) =~= seq![value@]);
                            Ok(Action::Finish(lines))
                        },
                        Err(e) => Err(e),
                    },
                    Op::Put => match keychain_set(success, status.as_str()) {
                        Ok(_) => Ok(Action::LoadRegistry),
                        Err(e) => Err(e),
                    },
                    _ => match keychain_delete(success, stderr.as_str()) {
                        Ok(_) => Ok(Action::LoadRegistry),
                        Err(e) => Err(e),
                    },
                };
                match outcome {
                    Ok(action) => {
                        self.stage = match self.op {
                            Op::Get => Stage::Done,
                            _ => Stage::AwaitRegistry,
                        };
                        action
                    },
                    Err(e) => {
                        self.stage = Stage::Done;
                        Action::Fail(e)
                    },
                }
            },
            Event::Registry(contents) => {
                let text = match &contents {
                    Some(t) => Some(t.as_str()),
                    None => None,
                };
                match self.op {
                    Op::Put => {
                        self.stage = Stage::AwaitSave;
                        Action::SaveRegistry(
                            registry_add(text, self.account.as_str(), self.service.as_str()),
                        )
                    },
                    Op::Delete => match registry_remove(
                        text,
                        self.account.as_str(),
                        self.service.as_str(),
                    ) {
                        Some(rest) => {
                            self.stage = Stage::AwaitSave;
                            Action::SaveRegistry(rest)
                        },
                        None => {
                            self.stage = Stage::Done;
                            Action::Finish(self.report("Removed secret for service `"))
                        },
                    },
                    _ => {
                        self.stage = Stage::Done;
                        let services = registry_list(text, self.account.as_str());
                        if services.len() == 0 {
                            let mut lines: Vec<String> = Vec::new();
                            lines.push(
                                String::from_str("No tracked secrets for account ").concat(
                                    self.account.as_str(),
                                ).concat("."),
                            );
                            assert(names(lines@) =~= seq![none_message(self.account@)]);
                            Action::Finish(lines)
                        } else {
                            Action::Finish(services)
                        }
                    },
                }
            },
            Event::Saved => {
                self.stage = Stage::Done;
                match self.op {
                    Op::Put => Action::Finish(self.report("Saved secret for service `")),
                    _ => Action::Finish(self.report("Removed secret for service `")),
                }
            },
            Event::Failed(text) => {
                let asked = match self.stage {
                    Stage::AwaitUser => true,
                    _ => false,
                };
                self.stage = Stage::Done;
                if asked {
                    Action::Fail(Error::AccountResolution)
                } else {
                    Action::Fail(Error::Io(text))
                }
            },
        }
    }

    /// The one line that begins with `head` and names the service and the account.
    fn report(&self, head: &str) -> (r: Vec<String>)
        ensures
            names(r@) == seq![
                head@ + self@.service + "` (account "@ + self@.account + ")."@,
            ],
    {
        let mut lines: Vec<String> = Vec::new();
        lines.push(
            line(head, self.service.as_str(), "` (account ", self.account.as_str(), ")."),
        );
        assert(names(lines@) =~= seq![
            head@ + self@.service + "` (account "@ + self@.account + ")."@,
        ]);
        lines
    }
}

} // verus!
