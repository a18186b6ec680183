//! The command line of the secret store, against a store in memory.

use ilar_tui::secret_cli::{
    begin, grantable, list_text, prompt_can_be_answered, run, stored_names, unknown_name, Action,
    Reply, SecretCommand, SecretInfo, StoreFacts, UnlockReply, UnlockStep, Unlocking, CLI_PROMPT,
    ROOT, STARTUP_PROMPT, STARTUP_TRIES,
};

type Ask<'a> = &'a mut dyn FnMut(&str) -> Result<String, String>;

#[derive(Default)]
struct Store {
    secrets: Vec<(String, String, String)>,
    always: Vec<(String, String)>,
    master: Option<String>,
    held: bool,
}

impl Store {
    fn set(&mut self, name: &str, description: &str, value: &str) {
        self.secrets.retain(|(stored, _, _)| stored != name);
        self.secrets.push((name.to_string(), description.to_string(), value.to_string()));
    }

    fn has(&self, name: &str) -> bool {
        self.secrets.iter().any(|(stored, _, _)| stored == name)
    }

    fn value(&self, name: &str) -> Option<&str> {
        self.secrets
            .iter()
            .find(|(stored, _, _)| stored == name)
            .map(|(_, _, value)| value.as_str())
    }

    fn is_locked(&self) -> bool {
        self.master.is_some() && !self.held
    }

    fn forget_master(&mut self) {
        self.held = false;
    }

    fn list(&self) -> Vec<SecretInfo> {
        self.secrets
            .iter()
            .map(|(name, description, _)| SecretInfo {
                name: name.clone(),
                description: description.clone(),
                always: self
                    .always
                    .iter()
                    .filter(|(granted, _)| granted == name)
                    .map(|(_, tool)| tool.clone())
                    .collect(),
            })
            .collect()
    }

    fn unlock(&mut self, password: &str) -> Result<(), String> {
        if self.master.as_deref() == Some(password) {
            self.held = true;
            Ok(())
        } else {
            Err("wrong master password".to_string())
        }
    }
}

fn facts(store: &Store, command: &SecretCommand, piped: bool) -> StoreFacts {
    let name_refusal = match command {
        SecretCommand::Store { name, .. }
            if !name.starts_with(|c: char| c.is_ascii_alphabetic()) =>
        {
            Some(format!("{name} is not a secret name"))
        }
        _ => None,
    };
    StoreFacts {
        sealed: store.master.is_some(),
        locked: store.is_locked(),
        path: "/state/secrets.json".to_string(),
        piped,
        name_refusal,
        min_password_chars: 8,
        tools: vec!["bash".to_string(), "sudo".to_string()],
    }
}

fn cli(
    store: &mut Store,
    command: SecretCommand,
    piped: Option<&str>,
    ask: Ask<'_>,
) -> Result<String, String> {
    let facts = facts(store, &command, piped.is_some());
    let (mut stage, mut action) = begin(&facts, command);
    for _ in 0..20 {
        let reply = match action {
            Action::Print(text) => return Ok(text),
            Action::Fail { why, .. } => return Err(why),
            Action::Ask(prompt) => match ask(&prompt) {
                Ok(text) => Reply::Text(text),
                Err(why) => Reply::Failed(why),
            },
            Action::ReadPiped => Reply::Text(piped.unwrap().to_string()),
            Action::Unlock(password) => match store.unlock(&password) {
                Ok(()) => Reply::Done(true),
                Err(why) => Reply::Failed(why),
            },
            Action::Encrypt(password) => {
                store.master = Some(password);
                store.held = true;
                Reply::Done(true)
            }
            Action::Decrypt(password) => match store.unlock(&password) {
                Ok(()) => {
                    store.master = None;
                    Reply::Done(true)
                }
                Err(why) => Reply::Failed(why),
            },
            Action::Store { name, description, value } => {
                let had = store.has(&name);
                store.set(&name, &description, &value);
                Reply::Done(had)
            }
            Action::List => Reply::Listed(store.list()),
            Action::Remove(name) => {
                let had = store.has(&name);
                store.secrets.retain(|(stored, _, _)| stored != &name);
                store.always.retain(|(granted, _)| granted != &name);
                Reply::Done(had)
            }
            Action::Grant { name, tool } => {
                let known = name == ROOT || store.has(&name);
                if known {
                    store.always.push((name, tool));
                }
                Reply::Done(known)
            }
            Action::Revoke { name, tool } => {
                let before = store.always.len();
                store.always.retain(|(granted, granted_tool)| {
                    granted != &name || tool.as_ref().is_some_and(|tool| tool != granted_tool)
                });
                Reply::Done(store.always.len() < before)
            }
        };
        (stage, action) = run(&facts, stage, reply);
    }
    panic!("no end");
}

fn no_password(_: &str) -> Result<String, String> {
    panic!("a plain store asks for no master password")
}

fn dry(store: &mut Store, command: SecretCommand) -> Result<String, String> {
    cli(store, command, Some(""), &mut no_password)
}

fn unlock_if_sealed(
    store: &mut Store,
    prompt: &str,
    tries: usize,
    ask: Ask<'_>,
) -> Result<bool, String> {
    let (mut unlocking, mut step) = Unlocking::begin(store.is_locked(), prompt, tries);
    for _ in 0..20 {
        let reply = match step {
            UnlockStep::Settled(open) => return Ok(open),
            UnlockStep::Failed(why) => return Err(why),
            UnlockStep::Ask(prompt) => match ask(&prompt) {
                Ok(text) => UnlockReply::Answer(text),
                Err(why) => UnlockReply::AskFailed(why),
            },
            UnlockStep::Try(password) => match store.unlock(&password) {
                Ok(()) => UnlockReply::Opened,
                Err(why) => UnlockReply::Wrong(why),
            },
        };
        step = unlocking.next(reply);
    }
    panic!("no end");
}

fn set(name: &str, description: &str) -> SecretCommand {
    SecretCommand::Store { name: name.to_string(), description: description.to_string() }
}

fn grant(name: &str, tool: &str) -> SecretCommand {
    SecretCommand::Grant { name: name.to_string(), tool: tool.to_string() }
}

fn revoke(name: &str, tool: Option<&str>) -> SecretCommand {
    SecretCommand::Revoke { name: name.to_string(), tool: tool.map(str::to_string) }
}

fn remove(name: &str) -> SecretCommand {
    SecretCommand::Remove { name: name.to_string() }
}

#[test]
fn the_value_comes_from_stdin_and_never_shows_again() {
    let mut store = Store::default();
    let out = cli(
        &mut store,
        set("GITHUB_TOKEN", "for gh"),
        Some("ghp_secret\n"),
        &mut no_password,
    )
    .unwrap();
    assert!(out.starts_with("Stored GITHUB_TOKEN"), "{out}");
    assert_eq!(store.value("GITHUB_TOKEN"), Some("ghp_secret"));
    assert!(cli(&mut store, set("X", ""), Some("\n"), &mut no_password).is_err());
    let out = dry(&mut store, grant("GITHUB_TOKEN", "bash")).unwrap();
    assert_eq!(out, "bash may use GITHUB_TOKEN without asking");
    assert!(dry(&mut store, grant("GITHUB_TOKEN", "read")).is_err());
    let out = dry(&mut store, SecretCommand::List).unwrap();
    assert_eq!(out, "GITHUB_TOKEN — for gh [always: bash]");
    assert!(!out.contains("ghp_secret"));
    let out = dry(&mut store, revoke("GITHUB_TOKEN", None)).unwrap();
    assert_eq!(out, "Every tool will ask for GITHUB_TOKEN again");
    let out = dry(&mut store, remove("GITHUB_TOKEN")).unwrap();
    assert_eq!(out, "Removed GITHUB_TOKEN");
    assert!(dry(&mut store, SecretCommand::List)
        .unwrap()
        .starts_with("No secrets stored"));
}

#[test]
fn a_name_the_store_does_not_have_is_an_error_everywhere() {
    let mut store = Store::default();

    // An empty store says where it is and what to type.
    let out = dry(&mut store, SecretCommand::List).unwrap();
    assert!(out.starts_with("No secrets stored in "), "{out}");
    assert!(out.ends_with("ilar secret set NAME"), "{out}");

    let missing = dry(&mut store, remove("NOPE")).unwrap_err();
    assert!(missing.contains("no secret named NOPE"), "{missing}");
    assert!(missing.contains("the store is empty"), "{missing}");
    store.set("KEY", "", "value-one");
    for command in [remove("NOPE"), grant("NOPE", "bash"), revoke("NOPE", None)] {
        let missing = dry(&mut store, command).unwrap_err();
        assert!(missing.contains("stored: KEY"), "{missing}");
    }
    // A real name with nothing to revoke is not a typo.
    let out = dry(&mut store, revoke("KEY", None)).unwrap();
    assert_eq!(out, "Nothing to revoke for KEY");

    // root is not stored, and says what does drop it.
    let root = dry(&mut store, remove(ROOT)).unwrap_err();
    assert!(root.contains("is not stored"), "{root}");
    assert!(root.contains("ilar secret revoke root"), "{root}");

    // Grants nothing reads.
    let pairs = [
        (ROOT, "bash", "grant it with --tool sudo"),
        ("KEY", "sudo", "takes no secrets"),
        ("KEY", "read", "no tool named read"),
    ];
    for (name, tool, says) in pairs {
        let refused = dry(&mut store, grant(name, tool)).unwrap_err();
        assert!(refused.contains(says), "{refused}");
        let refused = dry(&mut store, revoke(name, Some(tool))).unwrap_err();
        assert!(refused.contains(says), "{refused}");
    }
    let out = dry(&mut store, grant(ROOT, "sudo")).unwrap();
    assert_eq!(out, "sudo may use root without asking");
    let out = dry(&mut store, revoke(ROOT, None)).unwrap();
    assert_eq!(out, "Every tool will ask for root again");
}

#[test]
fn at_a_terminal_the_value_is_asked_for_twice() {
    let mut store = Store::default();
    let mut prompts = Vec::new();
    let mut answers = vec!["first-try".to_string(), "second-try".to_string()];
    let mut mismatch = |prompt: &str| {
        prompts.push(prompt.to_string());
        Ok(answers.remove(0))
    };
    let error = cli(&mut store, set("TOKEN", ""), None, &mut mismatch).unwrap_err();
    assert!(error.contains("did not match"), "{error}");
    assert_eq!(prompts, ["Value for TOKEN: ", "Again: "]);
    assert!(store.list().is_empty());
    let mut agree = |_: &str| Ok("same-value".to_string());
    let out = cli(&mut store, set("TOKEN", ""), None, &mut agree).unwrap();
    assert!(out.starts_with("Stored TOKEN"), "{out}");
    assert_eq!(store.value("TOKEN"), Some("same-value"));
    let out = cli(&mut store, set("TOKEN", ""), None, &mut agree).unwrap();
    assert!(out.starts_with("Replaced TOKEN"), "{out}");
}

#[test]
fn a_sealed_store_asks_for_its_master_password() {
    let mut store = Store::default();
    cli(&mut store, set("GITHUB_TOKEN", ""), Some("ghp_secret\n"), &mut no_password).unwrap();
    // A master password under the floor is refused after one ask.
    let mut asked = 0;
    let mut short = |_: &str| {
        asked += 1;
        Ok("abc".to_string())
    };
    let error = cli(&mut store, SecretCommand::Encrypt, Some(""), &mut short).unwrap_err();
    assert!(error.contains("nothing sealed"), "{error}");
    assert_eq!(asked, 1);
    let mut answers = vec!["open sesame".to_string(), "open sesame".to_string()];
    let mut ask = |_: &str| Ok(answers.remove(0));
    let out = cli(&mut store, SecretCommand::Encrypt, Some(""), &mut ask).unwrap();
    assert!(out.starts_with("Sealed "), "{out}");
    assert!(store.master.is_some());
    store.forget_master();
    assert!(store.is_locked());
    // A name the store would refuse anyway is refused before the master password
    // is asked for.
    let error = cli(&mut store, set("1bad", ""), Some(""), &mut no_password).unwrap_err();
    assert!(error.contains("is not a secret name"), "{error}");
    let mut refuse = |_: &str| Ok(String::new());
    assert!(cli(&mut store, SecretCommand::List, Some(""), &mut refuse).is_err());
    let mut wrong = |_: &str| Ok("nope".to_string());
    assert!(cli(&mut store, SecretCommand::List, Some(""), &mut wrong).is_err());
    let mut right = |_: &str| Ok("open sesame".to_string());
    let out = cli(&mut store, SecretCommand::List, Some(""), &mut right).unwrap();
    assert_eq!(out, "GITHUB_TOKEN");
    // Held now: no further asking.
    let out = cli(&mut store, SecretCommand::List, Some(""), &mut no_password).unwrap();
    assert_eq!(out, "GITHUB_TOKEN");
    let out = cli(&mut store, SecretCommand::Decrypt, Some(""), &mut right).unwrap();
    assert!(out.contains("in the clear"), "{out}");
    assert!(store.master.is_none());
}

#[test]
fn the_startup_prompt_re_asks_and_then_runs_locked() {
    let mut store = Store::default();
    store.set("KEY", "", "value-one");
    store.master = Some("open sesame".to_string());

    let mut prompts = Vec::new();
    let mut wrong = |prompt: &str| {
        prompts.push(prompt.to_string());
        Ok("nope".to_string())
    };
    assert!(!unlock_if_sealed(&mut store, STARTUP_PROMPT, STARTUP_TRIES, &mut wrong).unwrap());
    assert_eq!(prompts.len(), STARTUP_TRIES);
    assert_eq!(prompts[0], STARTUP_PROMPT);
    assert!(prompts[1].starts_with("Wrong master password. "), "{prompts:?}");
    assert!(store.is_locked());

    // Right on the second try: unlocked, and nothing else asks.
    let mut answers = vec!["nope".to_string(), "open sesame".to_string()];
    let mut second = |_: &str| Ok(answers.remove(0));
    assert!(unlock_if_sealed(&mut store, STARTUP_PROMPT, STARTUP_TRIES, &mut second).unwrap());
    assert!(!store.is_locked());
    assert!(answers.is_empty());

    // No terminal to ask on: nothing is unlocked behind the caller's back.
    store.forget_master();
    let mut no_tty = |_: &str| Err("reading the master password: no tty".to_string());
    let error =
        unlock_if_sealed(&mut store, STARTUP_PROMPT, STARTUP_TRIES, &mut no_tty).unwrap_err();
    assert!(error.contains("no tty"), "{error}");
    assert!(store.is_locked());

    // Enter leaves it locked without spending a try.
    let mut enter = |_: &str| Ok(String::new());
    assert!(!unlock_if_sealed(&mut store, STARTUP_PROMPT, STARTUP_TRIES, &mut enter).unwrap());

    // One try reports a wrong password as one.
    let mut once = |_: &str| Ok("nope".to_string());
    assert!(unlock_if_sealed(&mut store, CLI_PROMPT, 1, &mut once).is_err());
}

#[test]
fn a_background_job_is_never_prompted() {
    // Foreground: our own group owns the terminal.
    assert!(prompt_can_be_answered(4321, 4321));
    // Background: some other group owns it.
    assert!(!prompt_can_be_answered(4321, 8765));
    // The terminal named no owner.
    assert!(prompt_can_be_answered(-1, 8765));
}

#[test]
fn an_open_store_is_not_asked_for() {
    let mut store = Store::default();
    assert!(unlock_if_sealed(&mut store, CLI_PROMPT, 1, &mut no_password).unwrap());
}

#[test]
fn sealing_needs_the_same_password_twice() {
    let mut store = Store::default();
    let mut answers = vec!["open sesame".to_string(), "open sesane".to_string()];
    let mut ask = |_: &str| Ok(answers.remove(0));
    let error = cli(&mut store, SecretCommand::Encrypt, Some(""), &mut ask).unwrap_err();
    assert!(error.contains("did not match"), "{error}");
    assert!(store.master.is_none());
}

#[test]
fn a_failed_prompt_is_the_commands_failure() {
    let mut store = Store::default();
    let mut broken = |_: &str| Err("no tty".to_string());
    let error = cli(&mut store, set("TOKEN", ""), None, &mut broken).unwrap_err();
    assert!(error.contains("no tty"), "{error}");
    assert!(store.list().is_empty());
}

#[test]
fn a_pipe_that_cannot_be_read_says_why_behind_what_failed() {
    let store = Store::default();
    let command = set("TOKEN", "");
    let facts = facts(&store, &command, true);
    let (stage, action) = begin(&facts, command);
    assert_eq!(action, Action::ReadPiped);
    let (_, action) = run(&facts, stage, Reply::Failed("stream did not contain valid UTF-8".into()));
    assert_eq!(
        action,
        Action::Fail {
            why: "reading the value from stdin".to_string(),
            cause: Some("stream did not contain valid UTF-8".to_string()),
        }
    );
}

#[test]
fn what_is_listed_is_names_and_grants() {
    let info = |name: &str, always: &[&str]| SecretInfo {
        name: name.to_string(),
        description: String::new(),
        always: always.iter().map(|tool| tool.to_string()).collect(),
    };
    let listed = vec![info("A", &[]), info("B", &["bash", "sudo"])];
    assert_eq!(list_text(&listed, "/s"), "A\nB [always: bash, sudo]");
    assert_eq!(stored_names(&listed), ["A", "B"]);
    assert_eq!(
        unknown_name("C", &stored_names(&listed)),
        "no secret named C; stored: A, B"
    );
    let tools = vec!["bash".to_string(), "sudo".to_string()];
    assert_eq!(grantable(&tools, "A", "bash"), Ok(()));
    assert_eq!(
        grantable(&tools, "A", "read"),
        Err("no tool named read takes secrets; one of: bash, sudo".to_string())
    );
}
