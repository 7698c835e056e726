use keychainctl::error::Error;
use keychainctl::keychain::{
    absent, keychain_delete, keychain_delete_args, keychain_get, keychain_get_args, keychain_set,
    keychain_set_args,
};
use keychainctl::location::{config_dir, join, registry_path};
use keychainctl::resolve::{
    resolve_account, resolve_queried_account, resolve_secret_value, secret_source, SecretSource,
};

#[test]
fn get_args_ask_for_the_value_alone() {
    assert_eq!(
        keychain_get_args("alice", "svc"),
        vec!["find-generic-password", "-w", "-a", "alice", "-s", "svc"]
    );
}

#[test]
fn set_args_update_an_existing_entry() {
    assert_eq!(
        keychain_set_args("alice", "svc", "p w\t1"),
        vec!["add-generic-password", "-a", "alice", "-s", "svc", "-w", "p w\t1", "-U"]
    );
}

#[test]
fn delete_args_name_account_and_service() {
    assert_eq!(
        keychain_delete_args("alice", "svc"),
        vec!["delete-generic-password", "-a", "alice", "-s", "svc"]
    );
}

#[test]
fn get_strips_line_ends_and_keeps_inner_white_space() {
    assert_eq!(keychain_get(true, "pw1\n", ""), Ok("pw1".to_string()));
    assert_eq!(keychain_get(true, " a\tb c \r\n", "ignored"), Ok(" a\tb c ".to_string()));
    assert_eq!(keychain_get(true, "", ""), Ok(String::new()));
}

#[test]
fn get_tells_absent_from_failed() {
    let missing = "security: SecKeychainSearchCopyNext: The specified item could not be found in the keychain.\n";
    assert_eq!(keychain_get(false, "", missing), Err(Error::NotFound));
    assert_eq!(
        keychain_get(false, "out", "  keychain is locked \n"),
        Err(Error::Store("keychain is locked".to_string()))
    );
    assert_eq!(keychain_get(false, "", ""), Err(Error::Store(String::new())));
}

#[test]
fn set_fails_on_any_failed_exit() {
    assert_eq!(keychain_set(true, "exit status: 0"), Ok(()));
    assert_eq!(
        keychain_set(false, "exit status: 1"),
        Err(Error::Store("exit status: 1".to_string()))
    );
}

#[test]
fn delete_of_an_absent_secret_succeeds() {
    assert_eq!(keychain_delete(true, ""), Ok(()));
    assert_eq!(keychain_delete(false, "The specified item could not be found."), Ok(()));
    assert_eq!(
        keychain_delete(false, " access denied\n"),
        Err(Error::Store("access denied".to_string()))
    );
    assert!(absent("x could not be found y"));
    assert!(!absent("could not be located"));
}

#[test]
fn error_messages() {
    assert_eq!(Error::NotFound.message(), "secret not found");
    assert_eq!(
        Error::Store("keychain is locked".to_string()).message(),
        "security command failed: keychain is locked"
    );
    assert_eq!(Error::AccountResolution.message(), "failed to determine account");
    assert_eq!(
        Error::MissingSecretInput.message(),
        "No secret provided. Use --value, --stdin, or --prompt (or pipe data)."
    );
    assert_eq!(Error::Usage.message(), "use only one of --value, --stdin and --prompt");
}

#[test]
fn explicit_account_overrides_the_environment() {
    assert_eq!(resolve_account(Some("bob"), Some("alice")), Some("bob".to_string()));
    assert_eq!(resolve_account(Some(" bob \n"), Some("alice")), Some("bob".to_string()));
}

#[test]
fn blank_account_falls_through() {
    assert_eq!(resolve_account(Some("  "), Some("alice")), Some("alice".to_string()));
    assert_eq!(resolve_account(None, Some("alice")), Some("alice".to_string()));
    assert_eq!(resolve_account(Some(""), Some(" \t")), None);
    assert_eq!(resolve_account(None, None), None);
}

#[test]
fn queried_account_loses_its_line_end() {
    assert_eq!(resolve_queried_account(true, "carol\n"), Ok("carol".to_string()));
    assert_eq!(resolve_queried_account(true, "carol"), Ok("carol".to_string()));
    assert_eq!(resolve_queried_account(false, "carol\n"), Err(Error::AccountResolution));
}

#[test]
fn secret_source_follows_the_precedence() {
    for interactive in [false, true] {
        assert_eq!(secret_source(true, false, false, interactive), Ok(SecretSource::Explicit));
        assert_eq!(secret_source(false, true, false, interactive), Ok(SecretSource::Stdin));
        assert_eq!(secret_source(false, false, true, interactive), Ok(SecretSource::Prompt));
        assert_eq!(secret_source(true, true, false, interactive), Err(Error::Usage));
        assert_eq!(secret_source(true, false, true, interactive), Err(Error::Usage));
        assert_eq!(secret_source(false, true, true, interactive), Err(Error::Usage));
        assert_eq!(secret_source(true, true, true, interactive), Err(Error::Usage));
    }
    assert_eq!(secret_source(false, false, false, false), Ok(SecretSource::Stdin));
    assert_eq!(secret_source(false, false, false, true), Ok(SecretSource::Prompt));
}

#[test]
fn stdin_secret_loses_its_line_end() {
    assert_eq!(secret_source(false, true, false, false), Ok(SecretSource::Stdin));
    assert_eq!(resolve_secret_value(SecretSource::Stdin, "hunter2\n"), "hunter2");
    assert_eq!(resolve_secret_value(SecretSource::Stdin, " a b \r\n"), " a b ");
}

#[test]
fn explicit_and_prompted_secrets_are_taken_as_they_are() {
    assert_eq!(resolve_secret_value(SecretSource::Explicit, " pw \n"), " pw \n");
    assert_eq!(resolve_secret_value(SecretSource::Prompt, "pw\r\n"), "pw\r\n");
}

#[test]
fn set_then_get_gives_the_value_back() {
    for value in ["pw1", "two words", "tab\there", " lead and trail ", ""] {
        let args = keychain_set_args("alice", "svc", value);
        assert_eq!(args[6], value);
        let printed = format!("{}\n", args[6]);
        assert_eq!(keychain_get(true, &printed, ""), Ok(value.to_string()));
    }
}

#[test]
fn join_puts_one_separator_between() {
    assert_eq!(join("/home/alice", "x"), "/home/alice/x");
    assert_eq!(join("/home/alice/", "x"), "/home/alice/x");
    assert_eq!(join("", "x"), "x");
    assert_eq!(join("/", "x"), "/x");
}

#[test]
fn join_agrees_with_std_paths() {
    for base in ["/home/alice", "/home/alice/", "", "/", "rel", "a b/"] {
        for rest in ["keychainctl", ".config/keychainctl", "registry.txt"] {
            let want = std::path::Path::new(base).join(rest);
            assert_eq!(std::path::Path::new(&join(base, rest)), want.as_path());
        }
    }
}

#[test]
fn config_dir_prefers_the_override_root() {
    assert_eq!(config_dir(Some("/x"), Some("/home/a")), Some("/x/keychainctl".to_string()));
    assert_eq!(config_dir(Some(" "), Some("/home/a")), Some("/home/a/.config/keychainctl".to_string()));
    assert_eq!(config_dir(None, Some("/home/a")), Some("/home/a/.config/keychainctl".to_string()));
    assert_eq!(config_dir(None, None), None);
    assert_eq!(config_dir(Some(""), None), None);
}

#[test]
fn registry_path_is_the_registry_file_in_the_config_dir() {
    assert_eq!(
        registry_path(Some("/x"), None),
        Some("/x/keychainctl/registry.txt".to_string())
    );
    assert_eq!(
        registry_path(None, Some("/home/a")),
        Some("/home/a/.config/keychainctl/registry.txt".to_string())
    );
    assert_eq!(registry_path(None, None), None);
}
