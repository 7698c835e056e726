use keychainctl::error::Error;
use keychainctl::session::{Action, Command, Event, Session, Stage};
use std::collections::BTreeMap;

struct World {
    vault: BTreeMap<(String, String), String>,
    registry: Option<String>,
    user: Option<String>,
    whoami: Option<String>,
    interactive: bool,
    stdin: String,
    typed: String,
    answer: bool,
    tool_broken: bool,
    trace: Vec<String>,
}

fn world() -> World {
    World {
        vault: BTreeMap::new(),
        registry: None,
        user: Some("alice".to_string()),
        whoami: Some("alice\n".to_string()),
        interactive: false,
        stdin: String::new(),
        typed: String::new(),
        answer: false,
        tool_broken: false,
        trace: Vec::new(),
    }
}

fn run_tool(w: &mut World, args: &[String]) -> Event {
    let status = |ok: bool| if ok { "exit status: 0" } else { "exit status: 44" }.to_string();
    let fail = |stderr: &str| Event::Tool {
        success: false,
        stdout: String::new(),
        stderr: stderr.to_string(),
        status: status(false),
    };
    if w.tool_broken {
        return fail("  security: the keychain is locked\n");
    }
    let missing = "security: SecKeychainSearchCopyNext: The specified item could not be found in the keychain.\n";
    match args[0].as_str() {
        "find-generic-password" => {
            assert_eq!(args.len(), 6);
            assert_eq!((args[1].as_str(), args[2].as_str(), args[4].as_str()), ("-w", "-a", "-s"));
            match w.vault.get(&(args[3].clone(), args[5].clone())) {
                Some(v) => Event::Tool {
                    success: true,
                    stdout: format!("{}\n", v),
                    stderr: String::new(),
                    status: status(true),
                },
                None => fail(missing),
            }
        }
        "add-generic-password" => {
            assert_eq!(args.len(), 8);
            assert_eq!((args[1].as_str(), args[3].as_str()), ("-a", "-s"));
            assert_eq!((args[5].as_str(), args[7].as_str()), ("-w", "-U"));
            w.vault.insert((args[2].clone(), args[4].clone()), args[6].clone());
            Event::Tool {
                success: true,
                stdout: String::new(),
                stderr: String::new(),
                status: status(true),
            }
        }
        "delete-generic-password" => {
            assert_eq!(args.len(), 5);
            assert_eq!((args[1].as_str(), args[3].as_str()), ("-a", "-s"));
            match w.vault.remove(&(args[2].clone(), args[4].clone())) {
                Some(_) => Event::Tool {
                    success: true,
                    stdout: String::new(),
                    stderr: String::new(),
                    status: status(true),
                },
                None => fail(missing),
            }
        }
        other => panic!("unknown sub-command {}", other),
    }
}

fn run(w: &mut World, command: Command) -> Result<Vec<String>, Error> {
    let (mut session, mut action) = Session::begin(command, w.user.as_deref(), w.interactive);
    loop {
        let event = match action {
            Action::Finish(lines) => {
                assert_eq!(session.stage(), Stage::Done);
                return Ok(lines);
            }
            Action::Fail(e) => {
                assert_eq!(session.stage(), Stage::Done);
                return Err(e);
            }
            Action::AskUser => {
                w.trace.push("whoami".to_string());
                match &w.whoami {
                    Some(out) => Event::User { success: true, stdout: out.clone() },
                    None => Event::User { success: false, stdout: String::new() },
                }
            }
            Action::ReadStdin => {
                w.trace.push("stdin".to_string());
                Event::Secret(w.stdin.clone())
            }
            Action::Prompt(text) => {
                w.trace.push(format!("prompt {}", text));
                Event::Secret(w.typed.clone())
            }
            Action::Confirm(text) => {
                w.trace.push(format!("confirm {}", text));
                Event::Answer(w.answer)
            }
            Action::Run(args) => {
                w.trace.push(format!("run {}", args[0]));
                run_tool(w, &args)
            }
            Action::LoadRegistry => {
                w.trace.push("load".to_string());
                Event::Registry(w.registry.clone())
            }
            Action::SaveRegistry(text) => {
                w.trace.push("save".to_string());
                w.registry = Some(text);
                Event::Saved
            }
        };
        assert!(session.expects(&event));
        action = session.step(event);
    }
}

fn get(service: &str, account: Option<&str>) -> Command {
    Command::Get { service: service.to_string(), account: account.map(str::to_string) }
}

fn put(service: &str, account: Option<&str>, value: Option<&str>, stdin: bool, prompt: bool) -> Command {
    Command::Put {
        service: service.to_string(),
        account: account.map(str::to_string),
        value: value.map(str::to_string),
        stdin,
        prompt,
    }
}

fn delete(service: &str, account: Option<&str>, yes: bool) -> Command {
    Command::Delete { service: service.to_string(), account: account.map(str::to_string), yes }
}

fn list(account: Option<&str>) -> Command {
    Command::List { account: account.map(str::to_string) }
}

#[test]
fn end_to_end_set_get_delete_get() {
    let mut w = world();
    w.user = Some("someone-else".to_string());
    let said = run(&mut w, put("svc", Some("alice"), Some("pw1"), false, false));
    assert_eq!(said, Ok(vec!["Saved secret for service `svc` (account alice).".to_string()]));
    assert_eq!(w.registry.as_deref(), Some("alice\tsvc\n"));
    assert_eq!(run(&mut w, list(Some("alice"))), Ok(vec!["svc".to_string()]));
    assert_eq!(run(&mut w, get("svc", Some("alice"))), Ok(vec!["pw1".to_string()]));
    let said = run(&mut w, delete("svc", Some("alice"), true));
    assert_eq!(said, Ok(vec!["Removed secret for service `svc` (account alice).".to_string()]));
    assert_eq!(w.registry.as_deref(), Some(""));
    assert_eq!(
        run(&mut w, list(Some("alice"))),
        Ok(vec!["No tracked secrets for account alice.".to_string()])
    );
    assert_eq!(run(&mut w, get("svc", Some("alice"))), Err(Error::NotFound));
}

#[test]
fn set_then_get_returns_the_value_exactly() {
    for value in ["pw1", "with space", "tab\tinside", "  lead", "trail  ", "multi\nline", ""] {
        let mut w = world();
        run(&mut w, put("svc", None, Some(value), false, false)).unwrap();
        assert_eq!(run(&mut w, get("svc", None)), Ok(vec![value.to_string()]));
    }
}

#[test]
fn explicit_value_with_a_line_end_comes_back_without_it() {
    let mut w = world();
    run(&mut w, put("svc", None, Some("pw\n"), false, false)).unwrap();
    assert_eq!(w.vault.get(&("alice".to_string(), "svc".to_string())).unwrap(), "pw\n");
    assert_eq!(run(&mut w, get("svc", None)), Ok(vec!["pw".to_string()]));
}

#[test]
fn set_delete_get_is_not_found() {
    let mut w = world();
    run(&mut w, put("svc", None, Some("pw"), false, false)).unwrap();
    run(&mut w, delete("svc", None, true)).unwrap();
    assert_eq!(run(&mut w, get("svc", None)), Err(Error::NotFound));
}

#[test]
fn delete_of_a_service_never_added_succeeds() {
    let mut w = world();
    let said = run(&mut w, delete("ghost", None, true));
    assert_eq!(said, Ok(vec!["Removed secret for service `ghost` (account alice).".to_string()]));
    assert_eq!(w.registry, None);
    assert_eq!(w.trace, vec!["run delete-generic-password", "load"]);
}

#[test]
fn delete_keeps_the_other_services_of_the_account() {
    let mut w = world();
    run(&mut w, put("one", None, Some("1"), false, false)).unwrap();
    run(&mut w, put("two", None, Some("2"), false, false)).unwrap();
    assert_eq!(w.registry.as_deref(), Some("alice\tone\nalice\ttwo\n"));
    run(&mut w, delete("one", None, true)).unwrap();
    assert_eq!(w.registry.as_deref(), Some("alice\ttwo\n"));
    assert_eq!(run(&mut w, list(None)), Ok(vec!["two".to_string()]));
}

#[test]
fn delete_asks_first_and_aborts_on_no() {
    let mut w = world();
    run(&mut w, put("svc", None, Some("pw"), false, false)).unwrap();
    w.trace.clear();
    w.answer = false;
    assert_eq!(run(&mut w, delete("svc", None, false)), Ok(vec!["Aborted.".to_string()]));
    assert_eq!(w.trace, vec!["confirm Remove keychain secret for service `svc` (account alice)?"]);
    assert_eq!(w.registry.as_deref(), Some("alice\tsvc\n"));
    assert_eq!(run(&mut w, get("svc", None)), Ok(vec!["pw".to_string()]));
    w.answer = true;
    run(&mut w, delete("svc", None, false)).unwrap();
    assert_eq!(run(&mut w, get("svc", None)), Err(Error::NotFound));
    assert_eq!(w.registry.as_deref(), Some(""));
}

#[test]
fn registry_is_untouched_when_the_store_rejects() {
    let mut w = world();
    w.registry = Some("alice\told\n".to_string());
    w.tool_broken = true;
    let want = Err(Error::Store("exit status: 44".to_string()));
    assert_eq!(run(&mut w, put("svc", None, Some("pw"), false, false)), want);
    assert_eq!(w.trace, vec!["run add-generic-password"]);
    w.trace.clear();
    let want = Err(Error::Store("security: the keychain is locked".to_string()));
    assert_eq!(run(&mut w, delete("old", None, true)), want);
    assert_eq!(w.trace, vec!["run delete-generic-password"]);
    assert_eq!(run(&mut w, get("old", None)), want);
    assert_eq!(w.registry.as_deref(), Some("alice\told\n"));
}

#[test]
fn secret_from_piped_stdin_loses_its_line_end() {
    let mut w = world();
    w.stdin = "hunter2\n".to_string();
    run(&mut w, put("svc", None, None, true, false)).unwrap();
    assert_eq!(w.vault.get(&("alice".to_string(), "svc".to_string())).unwrap(), "hunter2");
    assert_eq!(w.trace[0], "stdin");
    let mut w = world();
    w.stdin = "piped \r\n".to_string();
    run(&mut w, put("svc", None, None, false, false)).unwrap();
    assert_eq!(w.vault.get(&("alice".to_string(), "svc".to_string())).unwrap(), "piped ");
}

#[test]
fn secret_from_the_prompt_is_taken_as_typed() {
    let mut w = world();
    w.interactive = true;
    w.typed = " typed ".to_string();
    run(&mut w, put("svc", None, None, false, false)).unwrap();
    assert_eq!(w.trace[0], "prompt Secret value: ");
    assert_eq!(w.vault.get(&("alice".to_string(), "svc".to_string())).unwrap(), " typed ");
    let mut w = world();
    w.typed = "asked".to_string();
    run(&mut w, put("svc", None, None, false, true)).unwrap();
    assert_eq!(w.vault.get(&("alice".to_string(), "svc".to_string())).unwrap(), "asked");
}

#[test]
fn conflicting_secret_sources_fail_before_anything_runs() {
    let mut w = world();
    assert_eq!(run(&mut w, put("svc", None, Some("pw"), true, false)), Err(Error::Usage));
    assert_eq!(run(&mut w, put("svc", None, Some("pw"), false, true)), Err(Error::Usage));
    assert_eq!(run(&mut w, put("svc", None, None, true, true)), Err(Error::Usage));
    assert!(w.trace.is_empty());
    assert!(w.vault.is_empty());
}

#[test]
fn account_comes_from_flag_then_environment_then_system() {
    let mut w = world();
    w.user = Some("envuser".to_string());
    w.whoami = Some("sysuser\n".to_string());
    run(&mut w, put("svc", Some("bob"), Some("1"), false, false)).unwrap();
    run(&mut w, put("svc", Some("   "), Some("2"), false, false)).unwrap();
    w.user = None;
    run(&mut w, put("svc", None, Some("3"), false, false)).unwrap();
    assert_eq!(w.vault.get(&("bob".to_string(), "svc".to_string())).unwrap(), "1");
    assert_eq!(w.vault.get(&("envuser".to_string(), "svc".to_string())).unwrap(), "2");
    assert_eq!(w.vault.get(&("sysuser".to_string(), "svc".to_string())).unwrap(), "3");
    assert_eq!(w.trace.iter().filter(|t| *t == "whoami").count(), 1);
    assert_eq!(w.registry.as_deref(), Some("bob\tsvc\nenvuser\tsvc\nsysuser\tsvc\n"));
}

#[test]
fn failed_user_query_is_fatal() {
    let mut w = world();
    w.user = None;
    w.whoami = None;
    assert_eq!(run(&mut w, list(None)), Err(Error::AccountResolution));
    assert_eq!(run(&mut w, get("svc", None)), Err(Error::AccountResolution));
    assert_eq!(w.trace, vec!["whoami", "whoami"]);
}

#[test]
fn list_prints_sorted_services_or_says_none() {
    let mut w = world();
    w.registry = Some("alice\tzeta\nbob\tx\n# note\nalice\talpha\nbroken\n".to_string());
    assert_eq!(run(&mut w, list(None)), Ok(vec!["alpha".to_string(), "zeta".to_string()]));
    assert_eq!(
        run(&mut w, list(Some("carol"))),
        Ok(vec!["No tracked secrets for account carol.".to_string()])
    );
    w.registry = None;
    assert_eq!(
        run(&mut w, list(None)),
        Ok(vec!["No tracked secrets for account alice.".to_string()])
    );
}

#[test]
fn session_expects_only_the_answer_to_its_action() {
    let (session, action) = Session::begin(get("svc", Some("alice")), None, false);
    assert_eq!(
        action,
        Action::Run(
            ["find-generic-password", "-w", "-a", "alice", "-s", "svc"]
                .iter()
                .map(|s| s.to_string())
                .collect()
        )
    );
    assert_eq!(session.stage(), Stage::AwaitTool);
    assert!(!session.expects(&Event::Saved));
    assert!(!session.expects(&Event::Answer(true)));
    assert!(!session.expects(&Event::Registry(None)));
    assert!(session.expects(&Event::Failed("no such tool".to_string())));
    let (session, action) = Session::begin(put("svc", None, Some("a"), true, false), None, false);
    assert_eq!(action, Action::Fail(Error::Usage));
    assert_eq!(session.stage(), Stage::Done);
    assert!(!session.expects(&Event::Failed("late".to_string())));
}

#[test]
fn failure_outside_ends_the_command() {
    let (mut session, action) = Session::begin(put("svc", Some("a"), None, true, false), None, false);
    assert_eq!(action, Action::ReadStdin);
    let action = session.step(Event::Failed("failed to read secret from stdin".to_string()));
    assert_eq!(action, Action::Fail(Error::Io("failed to read secret from stdin".to_string())));
    assert_eq!(session.stage(), Stage::Done);
    let (mut session, action) = Session::begin(list(None), None, false);
    assert_eq!(action, Action::AskUser);
    let action = session.step(Event::Failed("no whoami".to_string()));
    assert_eq!(action, Action::Fail(Error::AccountResolution));
    assert_eq!(Error::Io("disk full".to_string()).message(), "disk full");
}
