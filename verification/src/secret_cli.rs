//! The command line of the secret store, as a conversation: what to ask, what to
//! do with the store, and what to say in the end. A value is asked for hidden, or
//! read from standard input where that is piped; it is never an argument.

use vstd::prelude::*;
use crate::chars::{
    all_white, cat2, cat3, cat4, decimal, dec, from_range, group_views, is_blank, join, own, same,
    to_chars, views,
};
use crate::format::join_strings;
use crate::transcript::model::{copy_opt, opt_text};
use crate::transcript::rows::has_text;
use crate::words::{before, trimmed_end};

verus! {

broadcast use group_views;

/// The name that stands for the sudo tool's approval. It is never stored.
pub const ROOT: &'static str = "root";

/// What a program that is about to take over the terminal asks.
pub const STARTUP_PROMPT: &'static str = "Secret store master password (Enter leaves it locked): ";

/// What the command line asks: it can do nothing with a locked store.
pub const CLI_PROMPT: &'static str = "Secret store master password: ";

/// The tries of a program that carries on regardless.
pub const STARTUP_TRIES: usize = 3;

/// Whether a prompt on the terminal can be answered: our process group owns the
/// terminal, or nobody does.
pub fn prompt_can_be_answered(foreground: i32, ours: i32) -> (r: bool)
    ensures
        r == (foreground < 0 || foreground == ours),
{
    foreground < 0 || foreground == ours
}

// ---- Unlocking ----

/// A store that is being unlocked.
#[derive(Debug)]
pub struct Unlocking {
    pub prompt: String,
    pub tries: usize,
    /// How often the password was asked for.
    pub asked: usize,
}

#[verifier::ext_equal]
pub struct UnlockingView {
    pub prompt: Seq<char>,
    pub tries: usize,
    pub asked: usize,
}

impl View for Unlocking {
    type V = UnlockingView;

    open spec fn view(&self) -> UnlockingView {
        UnlockingView { prompt: self.prompt@, tries: self.tries, asked: self.asked }
    }
}

/// What came back.
#[derive(Debug)]
pub enum UnlockReply {
    Answer(String),
    AskFailed(String),
    Opened,
    Wrong(String),
}

/// What to do next: ask, try a password, or be done, unlocked or not.
#[derive(Debug, PartialEq, Eq)]
pub enum UnlockStep {
    Ask(String),
    Try(String),
    Settled(bool),
    Failed(String),
}

#[verifier::ext_equal]
pub enum UnlockStepView {
    Ask(Seq<char>),
    Try(Seq<char>),
    Settled(bool),
    Failed(Seq<char>),
}

impl View for UnlockStep {
    type V = UnlockStepView;

    open spec fn view(&self) -> UnlockStepView {
        match self {
            UnlockStep::Ask(prompt) => UnlockStepView::Ask(prompt@),
            UnlockStep::Try(password) => UnlockStepView::Try(password@),
            UnlockStep::Settled(open) => UnlockStepView::Settled(*open),
            UnlockStep::Failed(why) => UnlockStepView::Failed(why@),
        }
    }
}

/// The tries that are granted.
pub open spec fn granted(tries: usize) -> usize {
    if tries == 0 {
        1
    } else {
        tries
    }
}

/// The first step: a store that is not locked needs none.
pub open spec fn unlock_begun(locked: bool, prompt: Seq<char>, tries: usize) -> (
    UnlockingView,
    UnlockStepView,
) {
    (
        UnlockingView { prompt, tries, asked: 1 },
        if locked {
            UnlockStepView::Ask(prompt)
        } else {
            UnlockStepView::Settled(true)
        },
    )
}

/// The next step. An empty answer leaves the store locked. So does the last wrong
/// one where more than one try was granted; of a single try it is the error.
pub open spec fn unlock_next(u: UnlockingView, reply: UnlockReply) -> (
    UnlockingView,
    UnlockStepView,
) {
    match reply {
        UnlockReply::Answer(password) => (
            u,
            if all_white(password@) {
                UnlockStepView::Settled(false)
            } else {
                UnlockStepView::Try(password@)
            },
        ),
        UnlockReply::AskFailed(why) => (u, UnlockStepView::Failed(why@)),
        UnlockReply::Opened => (u, UnlockStepView::Settled(true)),
        UnlockReply::Wrong(why) => if u.asked < granted(u.tries) {
            (
                UnlockingView { asked: (u.asked + 1) as usize, ..u },
                UnlockStepView::Ask("Wrong master password. "@ + u.prompt),
            )
        } else if u.tries > 1 {
            (u, UnlockStepView::Settled(false))
        } else {
            (u, UnlockStepView::Failed(why@))
        },
    }
}

impl Unlocking {
    pub fn begin(locked: bool, prompt: &str, tries: usize) -> (r: (Unlocking, UnlockStep))
        ensures
            (r.0@, r.1@) == unlock_begun(locked, prompt@, tries),
    {
        let u: Unlocking = Unlocking { prompt: own(prompt), tries, asked: 1 };
        let step: UnlockStep = if locked {
            UnlockStep::Ask(own(prompt))
        } else {
            UnlockStep::Settled(true)
        };
        (u, step)
    }

    pub fn next(&mut self, reply: UnlockReply) -> (r: UnlockStep)
        ensures
            (final(self)@, r@) == unlock_next(old(self)@, reply),
    {
        match reply {
            UnlockReply::Answer(password) => if is_blank(password.as_str()) {
                UnlockStep::Settled(false)
            } else {
                UnlockStep::Try(password)
            },
            UnlockReply::AskFailed(why) => UnlockStep::Failed(why),
            UnlockReply::Opened => UnlockStep::Settled(true),
            UnlockReply::Wrong(why) => {
                let granted: usize = if self.tries == 0 {
                    1
                } else {
                    self.tries
                };
                if self.asked < granted {
                    self.asked = self.asked + 1;
                    UnlockStep::Ask(cat2("Wrong master password. ", self.prompt.as_str()))
                } else if self.tries > 1 {
                    UnlockStep::Settled(false)
                } else {
                    UnlockStep::Failed(why)
                }
            },
        }
    }
}

/// A password is never asked for more often than was granted, and a wrong one
/// spends a try. With more than one try the last wrong password is no error.
pub proof fn law_tries_are_bounded(u: UnlockingView, reply: UnlockReply)
    requires
        1 <= u.asked <= granted(u.tries),
    ensures
        u.asked <= unlock_next(u, reply).0.asked <= granted(u.tries),
        unlock_next(u, reply).1 is Ask ==> unlock_next(u, reply).0.asked == u.asked + 1,
        reply is Wrong && u.tries > 1 ==> !(unlock_next(u, reply).1 is Failed),
{
}

// ---- Commands ----

#[derive(Debug, PartialEq, Eq)]
pub enum SecretCommand {
    /// Store a secret.
    Store { name: String, description: String },
    /// Names, descriptions and standing grants, never values.
    List,
    /// Forget a secret and its grants.
    Remove { name: String },
    /// Let a tool use a secret without asking, for good.
    Grant { name: String, tool: String },
    /// Drop standing grants, for one tool or all of them.
    Revoke { name: String, tool: Option<String> },
    /// Seal the store under a master password.
    Encrypt,
    /// Write the store back in the clear.
    Decrypt,
}

#[verifier::ext_equal]
pub enum CommandView {
    Store { name: Seq<char>, description: Seq<char> },
    List,
    Remove { name: Seq<char> },
    Grant { name: Seq<char>, tool: Seq<char> },
    Revoke { name: Seq<char>, tool: Option<Seq<char>> },
    Encrypt,
    Decrypt,
}

impl View for SecretCommand {
    type V = CommandView;

    open spec fn view(&self) -> CommandView {
        match self {
            SecretCommand::Store { name, description } => CommandView::Store {
                name: name@,
                description: description@,
            },
            SecretCommand::List => CommandView::List,
            SecretCommand::Remove { name } => CommandView::Remove { name: name@ },
            SecretCommand::Grant { name, tool } => CommandView::Grant { name: name@, tool: tool@ },
            SecretCommand::Revoke { name, tool } => CommandView::Revoke {
                name: name@,
                tool: opt_text(*tool),
            },
            SecretCommand::Encrypt => CommandView::Encrypt,
            SecretCommand::Decrypt => CommandView::Decrypt,
        }
    }
}

/// What a command meets: how the store stands, where it is, whether standard
/// input is piped, why the store would refuse the name, the shortest master
/// password, and the tools that take secrets.
#[derive(Debug)]
pub struct StoreFacts {
    pub sealed: bool,
    pub locked: bool,
    pub path: String,
    pub piped: bool,
    pub name_refusal: Option<String>,
    pub min_password_chars: usize,
    pub tools: Vec<String>,
}

/// A stored secret without its value.
#[derive(Debug)]
pub struct SecretInfo {
    pub name: String,
    pub description: String,
    pub always: Vec<String>,
}

#[verifier::ext_equal]
pub struct InfoView {
    pub name: Seq<char>,
    pub description: Seq<char>,
    pub always: Seq<Seq<char>>,
}

impl View for SecretInfo {
    type V = InfoView;

    open spec fn view(&self) -> InfoView {
        InfoView {
            name: self.name@,
            description: self.description@,
            always: views(self.always@),
        }
    }
}

/// What came back: a text that was typed or read, how the store did, what it
/// holds, or why it failed.
#[derive(Debug)]
pub enum Reply {
    Text(String),
    Done(bool),
    Listed(Vec<SecretInfo>),
    Failed(String),
}

/// What to do next. `Print` and `Fail` end the command; what failed may have a
/// cause behind it.
#[derive(Debug, PartialEq, Eq)]
pub enum Action {
    Ask(String),
    ReadPiped,
    Unlock(String),
    Encrypt(String),
    Decrypt(String),
    Store { name: String, description: String, value: String },
    List,
    Remove(String),
    Grant { name: String, tool: String },
    Revoke { name: String, tool: Option<String> },
    Print(String),
    Fail { why: String, cause: Option<String> },
}

#[verifier::ext_equal]
pub enum ActionView {
    Ask(Seq<char>),
    ReadPiped,
    Unlock(Seq<char>),
    Encrypt(Seq<char>),
    Decrypt(Seq<char>),
    Store { name: Seq<char>, description: Seq<char>, value: Seq<char> },
    List,
    Remove(Seq<char>),
    Grant { name: Seq<char>, tool: Seq<char> },
    Revoke { name: Seq<char>, tool: Option<Seq<char>> },
    Print(Seq<char>),
    Fail { why: Seq<char>, cause: Option<Seq<char>> },
}

impl View for Action {
    type V = ActionView;

    open spec fn view(&self) -> ActionView {
        match self {
            Action::Ask(prompt) => ActionView::Ask(prompt@),
            Action::ReadPiped => ActionView::ReadPiped,
            Action::Unlock(password) => ActionView::Unlock(password@),
            Action::Encrypt(password) => ActionView::Encrypt(password@),
            Action::Decrypt(password) => ActionView::Decrypt(password@),
            Action::Store { name, description, value } => ActionView::Store {
                name: name@,
                description: description@,
                value: value@,
            },
            Action::List => ActionView::List,
            Action::Remove(name) => ActionView::Remove(name@),
            Action::Grant { name, tool } => ActionView::Grant { name: name@, tool: tool@ },
            Action::Revoke { name, tool } => ActionView::Revoke {
                name: name@,
                tool: opt_text(*tool),
            },
            Action::Print(text) => ActionView::Print(text@),
            Action::Fail { why, cause } => ActionView::Fail { why: why@, cause: opt_text(*cause) },
        }
    }
}

/// What a command waits for.
#[derive(Debug)]
pub enum Stage {
    /// The password to seal under, and then the same again.
    NewPassword,
    SamePassword { password: String },
    Sealing,
    /// The password to open with.
    OldPassword,
    Clearing,
    /// The password that the command needs first, and whether it was right.
    Password { unlocking: Unlocking, command: SecretCommand },
    Unlocked { unlocking: Unlocking, command: SecretCommand },
    /// The value, and then the same again.
    Value { name: String, description: String },
    SameValue { name: String, description: String, value: String },
    Setting { name: String },
    Listing,
    Removing { name: String },
    Granting { name: String, tool: String },
    /// The names, to tell a typo from nothing to revoke.
    Known { name: String, tool: Option<String> },
    Revoking { name: String, tool: Option<String> },
    /// The names, to say which there are.
    Unknown { name: String },
    Over,
}

#[verifier::ext_equal]
pub enum StageView {
    NewPassword,
    SamePassword { password: Seq<char> },
    Sealing,
    OldPassword,
    Clearing,
    Password { unlocking: UnlockingView, command: CommandView },
    Unlocked { unlocking: UnlockingView, command: CommandView },
    Value { name: Seq<char>, description: Seq<char> },
    SameValue { name: Seq<char>, description: Seq<char>, value: Seq<char> },
    Setting { name: Seq<char> },
    Listing,
    Removing { name: Seq<char> },
    Granting { name: Seq<char>, tool: Seq<char> },
    Known { name: Seq<char>, tool: Option<Seq<char>> },
    Revoking { name: Seq<char>, tool: Option<Seq<char>> },
    Unknown { name: Seq<char> },
    Over,
}

impl View for Stage {
    type V = StageView;

    open spec fn view(&self) -> StageView {
        match self {
            Stage::NewPassword => StageView::NewPassword,
            Stage::SamePassword { password } => StageView::SamePassword { password: password@ },
            Stage::Sealing => StageView::Sealing,
            Stage::OldPassword => StageView::OldPassword,
            Stage::Clearing => StageView::Clearing,
            Stage::Password { unlocking, command } => StageView::Password {
                unlocking: unlocking@,
                command: command@,
            },
            Stage::Unlocked { unlocking, command } => StageView::Unlocked {
                unlocking: unlocking@,
                command: command@,
            },
            Stage::Value { name, description } => StageView::Value {
                name: name@,
                description: description@,
            },
            Stage::SameValue { name, description, value } => StageView::SameValue {
                name: name@,
                description: description@,
                value: value@,
            },
            Stage::Setting { name } => StageView::Setting { name: name@ },
            Stage::Listing => StageView::Listing,
            Stage::Removing { name } => StageView::Removing { name: name@ },
            Stage::Granting { name, tool } => StageView::Granting { name: name@, tool: tool@ },
            Stage::Known { name, tool } => StageView::Known { name: name@, tool: opt_text(*tool) },
            Stage::Revoking { name, tool } => StageView::Revoking {
                name: name@,
                tool: opt_text(*tool),
            },
            Stage::Unknown { name } => StageView::Unknown { name: name@ },
            Stage::Over => StageView::Over,
        }
    }
}

// ---- What is said ----

/// Why a tool could never read a grant of this name, if it could not: the sudo
/// tool takes root and nothing else, and nothing else takes root.
pub open spec fn grant_refusal(
    tools: Seq<Seq<char>>,
    name: Seq<char>,
    tool: Seq<char>,
) -> Option<Seq<char>> {
    if !tools.contains(tool) {
        Some("no tool named "@ + tool + " takes secrets; one of: "@ + join(tools, ", "@))
    } else if name == ROOT@ && tool != "sudo"@ {
        Some("only the sudo tool asks for root; grant it with --tool sudo"@)
    } else if name != ROOT@ && tool == "sudo"@ {
        Some(
            "the sudo tool takes no secrets, only root; "@ + name + " goes to bash or service"@,
        )
    } else {
        None
    }
}

pub fn grantable(tools: &Vec<String>, name: &str, tool: &str) -> (r: Result<(), String>)
    ensures
        match r {
            Ok(_) => grant_refusal(views(tools@), name@, tool@) is None,
            Err(why) => grant_refusal(views(tools@), name@, tool@) == Some(why@),
        },
{
    if !has_text(tools, tool) {
        let all: String = join_strings(tools, ", ");
        return Err(cat4("no tool named ", tool, " takes secrets; one of: ", all.as_str()));
    }
    let root: bool = same(name, ROOT);
    let sudo: bool = same(tool, "sudo");
    if root && !sudo {
        Err(own("only the sudo tool asks for root; grant it with --tool sudo"))
    } else if !root && sudo {
        Err(
            cat3(
                "the sudo tool takes no secrets, only root; ",
                name,
                " goes to bash or service",
            ),
        )
    } else {
        Ok(())
    }
}

/// The names that are stored: root is not.
pub open spec fn names_upto(listed: Seq<InfoView>, n: int) -> Seq<Seq<char>>
    decreases n,
{
    if n <= 0 || n > listed.len() {
        Seq::empty()
    } else {
        let before = names_upto(listed, n - 1);
        if listed[n - 1].name == ROOT@ {
            before
        } else {
            before.push(listed[n - 1].name)
        }
    }
}

pub fn stored_names(listed: &Vec<SecretInfo>) -> (r: Vec<String>)
    ensures
        views(r@) == names_upto(views(listed@), listed@.len() as int),
{
    let ghost all = views(listed@);
    let mut r: Vec<String> = Vec::new();
    let mut i: usize = 0;
    while i < listed.len()
        invariant
            i <= listed@.len(),
            all == views(listed@),
            views(r@) == names_upto(all, i as int),
        decreases listed@.len() - i,
    {
        assert(all[i as int] == listed@[i as int]@);
        if !same(listed[i].name.as_str(), ROOT) {
            r.push(own(listed[i].name.as_str()));
        }
        i += 1;
    }
    r
}

/// What a name that the store does not have is answered.
pub open spec fn unknown_text(name: Seq<char>, names: Seq<Seq<char>>) -> Seq<char> {
    if names.len() == 0 {
        "no secret named "@ + name + "; the store is empty"@
    } else {
        "no secret named "@ + name + "; stored: "@ + join(names, ", "@)
    }
}

pub fn unknown_name(name: &str, names: &Vec<String>) -> (r: String)
    ensures
        r@ == unknown_text(name@, views(names@)),
{
    assert(views(names@).len() == names@.len());
    if names.len() == 0 {
        cat3("no secret named ", name, "; the store is empty")
    } else {
        let all: String = join_strings(names, ", ");
        cat4("no secret named ", name, "; stored: ", all.as_str())
    }
}

/// A secret in one line.
pub open spec fn info_line(info: InfoView) -> Seq<char> {
    let described = if info.description.len() > 0 {
        info.name + (" — "@ + info.description)
    } else {
        info.name
    };
    if info.always.len() > 0 {
        described + (" [always: "@ + join(info.always, ", "@) + "]"@)
    } else {
        described
    }
}

fn line_of(info: &SecretInfo) -> (r: String)
    ensures
        r@ == info_line(info@),
{
    let mut line: String = own(info.name.as_str());
    if !info.description.as_str().is_empty() {
        let described: String = cat2(" — ", info.description.as_str());
        line.push_str(described.as_str());
    }
    assert(views(info.always@).len() == info.always@.len());
    if info.always.len() > 0 {
        let tools: String = join_strings(&info.always, ", ");
        let always: String = cat3(" [always: ", tools.as_str(), "]");
        line.push_str(always.as_str());
    }
    line
}

/// The listing.
pub open spec fn listing(listed: Seq<InfoView>, path: Seq<char>) -> Seq<char> {
    if listed.len() == 0 {
        "No secrets stored in "@ + path + ". Add one with: ilar secret set NAME"@
    } else {
        join(listed.map_values(|info: InfoView| info_line(info)), "\n"@)
    }
}

pub fn list_text(listed: &Vec<SecretInfo>, path: &str) -> (r: String)
    ensures
        r@ == listing(views(listed@), path@),
{
    let ghost all = views(listed@);
    assert(all.len() == listed@.len());
    if listed.len() == 0 {
        return cat3("No secrets stored in ", path, ". Add one with: ilar secret set NAME");
    }
    let ghost want = all.map_values(|info: InfoView| info_line(info));
    let mut rows: Vec<String> = Vec::new();
    let mut i: usize = 0;
    while i < listed.len()
        invariant
            i <= listed@.len(),
            all == views(listed@),
            want == all.map_values(|info: InfoView| info_line(info)),
            views(rows@) == want.take(i as int),
        decreases listed@.len() - i,
    {
        assert(all[i as int] == listed@[i as int]@);
        rows.push(line_of(&listed[i]));
        i += 1;
        assert(views(rows@) =~= want.take(i as int));
    }
    assert(want.take(i as int) =~= want);
    join_strings(&rows, "\n")
}

pub open spec fn line_end() -> spec_fn(char) -> bool {
    |c: char| c == '\n' || c == '\r'
}

/// What was piped in, without the line ends behind it.
fn without_line_end(s: &str) -> (r: String)
    ensures
        r@ == trimmed_end(s@, line_end()),
{
    let v: Vec<char> = to_chars(s);
    let mut n: usize = v.len();
    while n > 0 && (v[n - 1] == '\n' || v[n - 1] == '\r')
        invariant
            n <= v@.len(),
            before(v@, v@.len() as int, line_end()) == before(v@, n as int, line_end()),
        decreases n,
    {
        n -= 1;
    }
    assert(v@.subrange(0, n as int) =~= v@.take(n as int));
    from_range(&v, 0, n)
}

// ---- The conversation ----

pub open spec fn stop(why: Seq<char>) -> (StageView, ActionView) {
    (StageView::Over, ActionView::Fail { why, cause: None })
}

/// Stop for what came of something else.
pub open spec fn stop_for(why: Seq<char>, cause: Seq<char>) -> (StageView, ActionView) {
    (StageView::Over, ActionView::Fail { why, cause: Some(cause) })
}

pub open spec fn say(text: Seq<char>) -> (StageView, ActionView) {
    (StageView::Over, ActionView::Print(text))
}

/// What root is answered where it is to be removed.
pub open spec fn root_is_not_stored() -> Seq<char> {
    "root is not stored: it is what the sudo tool asks for. `ilar secret revoke root` drops its standing approval"@
}

/// A command on a store that is open.
pub open spec fn command_begun(facts: StoreFacts, command: CommandView) -> (StageView, ActionView) {
    match command {
        CommandView::Store { name, description } => (
            StageView::Value { name, description },
            if facts.piped {
                ActionView::ReadPiped
            } else {
                ActionView::Ask("Value for "@ + name + ": "@)
            },
        ),
        CommandView::List => (StageView::Listing, ActionView::List),
        CommandView::Remove { name } => if name == ROOT@ {
            stop(root_is_not_stored())
        } else {
            (StageView::Removing { name }, ActionView::Remove(name))
        },
        CommandView::Grant { name, tool } => match grant_refusal(
            views(facts.tools@),
            name,
            tool,
        ) {
            Some(why) => stop(why),
            None => (StageView::Granting { name, tool }, ActionView::Grant { name, tool }),
        },
        CommandView::Revoke { name, tool } => match (match tool {
            Some(tool) => grant_refusal(views(facts.tools@), name, tool),
            None => None,
        }) {
            Some(why) => stop(why),
            None => (StageView::Known { name, tool }, ActionView::List),
        },
        CommandView::Encrypt => if facts.sealed {
            stop("the store is already sealed; decrypt it first to change the password"@)
        } else {
            (StageView::NewPassword, ActionView::Ask("New master password: "@))
        },
        CommandView::Decrypt => if facts.sealed {
            (StageView::OldPassword, ActionView::Ask("Master password: "@))
        } else {
            stop("the store is not sealed"@)
        },
    }
}

/// How a command begins. A name that the store would refuse is refused before
/// anything is asked, and a locked store asks for its password first.
pub open spec fn begun(facts: StoreFacts, command: CommandView) -> (StageView, ActionView) {
    if command is Store && facts.name_refusal is Some {
        stop(facts.name_refusal->0@)
    } else if command is Encrypt || command is Decrypt || !facts.locked {
        command_begun(facts, command)
    } else {
        (
            StageView::Password {
                unlocking: UnlockingView { prompt: CLI_PROMPT@, tries: 1, asked: 1 },
                command,
            },
            ActionView::Ask(CLI_PROMPT@),
        )
    }
}

/// What a step of unlocking means to the command behind it.
pub open spec fn unlock_means(
    facts: StoreFacts,
    command: CommandView,
    step: (UnlockingView, UnlockStepView),
) -> (StageView, ActionView) {
    match step.1 {
        UnlockStepView::Ask(prompt) => (
            StageView::Password { unlocking: step.0, command },
            ActionView::Ask(prompt),
        ),
        UnlockStepView::Try(password) => (
            StageView::Unlocked { unlocking: step.0, command },
            ActionView::Unlock(password),
        ),
        UnlockStepView::Settled(open) => if open {
            command_begun(facts, command)
        } else {
            stop(
                "the store is sealed; nothing can be read or written without the master password"@,
            )
        },
        UnlockStepView::Failed(why) => stop(why),
    }
}

pub open spec fn out_of_step() -> (StageView, ActionView) {
    stop("the reply does not fit the question"@)
}

/// What follows a text that was typed or read.
pub open spec fn text_means(facts: StoreFacts, stage: StageView, text: String) -> (
    StageView,
    ActionView,
) {
    match stage {
        StageView::NewPassword => if text@.len() < facts.min_password_chars {
            stop(
                "a master password is at least "@ + dec(facts.min_password_chars as nat)
                    + " characters; nothing sealed"@,
            )
        } else {
            (StageView::SamePassword { password: text@ }, ActionView::Ask("Again: "@))
        },
        StageView::SamePassword { password } => if text@ == password {
            (StageView::Sealing, ActionView::Encrypt(password))
        } else {
            stop("the two did not match; nothing sealed"@)
        },
        StageView::OldPassword => (StageView::Clearing, ActionView::Decrypt(text@)),
        StageView::Password { unlocking, command } => unlock_means(
            facts,
            command,
            unlock_next(unlocking, UnlockReply::Answer(text)),
        ),
        StageView::Value { name, description } => if facts.piped {
            let value = trimmed_end(text@, line_end());
            if value.len() == 0 {
                stop("no value on stdin"@)
            } else {
                (StageView::Setting { name }, ActionView::Store { name, description, value })
            }
        } else if text@.len() == 0 {
            stop("no value given"@)
        } else {
            (
                StageView::SameValue { name, description, value: text@ },
                ActionView::Ask("Again: "@),
            )
        },
        StageView::SameValue { name, description, value } => if text@ == value {
            (StageView::Setting { name }, ActionView::Store { name, description, value })
        } else {
            stop("the two did not match; nothing stored"@)
        },
        _ => out_of_step(),
    }
}

/// What follows when the store did what it was told. The flag says whether the
/// name was there, or whether there was something to drop.
pub open spec fn done_means(facts: StoreFacts, stage: StageView, flag: bool) -> (
    StageView,
    ActionView,
) {
    match stage {
        StageView::Sealing => say(
            "Sealed "@ + facts.path@ + "; every session asks for the master password once"@,
        ),
        StageView::Clearing => say(facts.path@ + " is in the clear again"@),
        StageView::Unlocked { unlocking, command } => unlock_means(
            facts,
            command,
            unlock_next(unlocking, UnlockReply::Opened),
        ),
        StageView::Setting { name } => say(
            (if flag {
                "Replaced "@
            } else {
                "Stored "@
            }) + name + " in "@ + facts.path@,
        ),
        StageView::Removing { name } => if flag {
            say("Removed "@ + name)
        } else {
            (StageView::Unknown { name }, ActionView::List)
        },
        StageView::Granting { name, tool } => if flag {
            say(tool + " may use "@ + name + " without asking"@)
        } else {
            (StageView::Unknown { name }, ActionView::List)
        },
        StageView::Revoking { name, tool } => if flag {
            match tool {
                Some(tool) => say(tool + " will ask for "@ + name + " again"@),
                None => say("Every tool will ask for "@ + name + " again"@),
            }
        } else {
            say("Nothing to revoke for "@ + name)
        },
        _ => out_of_step(),
    }
}

/// What follows when the store said what it holds.
pub open spec fn listed_means(facts: StoreFacts, stage: StageView, listed: Seq<InfoView>) -> (
    StageView,
    ActionView,
) {
    let names = names_upto(listed, listed.len() as int);
    match stage {
        StageView::Listing => say(listing(listed, facts.path@)),
        StageView::Known { name, tool } => if name != ROOT@ && !names.contains(name) {
            (StageView::Unknown { name }, ActionView::List)
        } else {
            (StageView::Revoking { name, tool }, ActionView::Revoke { name, tool })
        },
        StageView::Unknown { name } => stop(unknown_text(name, names)),
        _ => out_of_step(),
    }
}

/// What follows a failure: it ends the command. Only a wrong password is one try
/// of several, and a store that cannot say its names has none to say. What could
/// not be read from a pipe is said first, and why behind it.
pub open spec fn failure_means(facts: StoreFacts, stage: StageView, why: String) -> (
    StageView,
    ActionView,
) {
    match stage {
        StageView::Unlocked { unlocking, command } => unlock_means(
            facts,
            command,
            unlock_next(unlocking, UnlockReply::Wrong(why)),
        ),
        StageView::Unknown { name } => stop(unknown_text(name, Seq::empty())),
        StageView::Value { .. } => if facts.piped {
            stop_for("reading the value from stdin"@, why@)
        } else {
            stop(why@)
        },
        _ => stop(why@),
    }
}

/// The next action of a command.
pub open spec fn next_action(facts: StoreFacts, stage: StageView, reply: Reply) -> (
    StageView,
    ActionView,
) {
    match reply {
        Reply::Text(text) => text_means(facts, stage, text),
        Reply::Done(flag) => done_means(facts, stage, flag),
        Reply::Listed(listed) => listed_means(facts, stage, views(listed@)),
        Reply::Failed(why) => failure_means(facts, stage, why),
    }
}

fn fail(why: String) -> (r: (Stage, Action))
    ensures
        (r.0@, r.1@) == stop(why@),
{
    (Stage::Over, Action::Fail { why, cause: None })
}

fn print(text: String) -> (r: (Stage, Action))
    ensures
        (r.0@, r.1@) == say(text@),
{
    (Stage::Over, Action::Print(text))
}

fn astray() -> (r: (Stage, Action))
    ensures
        (r.0@, r.1@) == out_of_step(),
{
    fail(own("the reply does not fit the question"))
}

fn begin_command(facts: &StoreFacts, command: SecretCommand) -> (r: (Stage, Action))
    ensures
        (r.0@, r.1@) == command_begun(*facts, command@),
{
    match command {
        SecretCommand::Store { name, description } => {
            let action: Action = if facts.piped {
                Action::ReadPiped
            } else {
                Action::Ask(cat3("Value for ", name.as_str(), ": "))
            };
            (Stage::Value { name, description }, action)
        },
        SecretCommand::List => (Stage::Listing, Action::List),
        SecretCommand::Remove { name } => if same(name.as_str(), ROOT) {
            fail(
                own(
                    "root is not stored: it is what the sudo tool asks for. `ilar secret revoke root` drops its standing approval",
                ),
            )
        } else {
            let action: Action = Action::Remove(own(name.as_str()));
            (Stage::Removing { name }, action)
        },
        SecretCommand::Grant { name, tool } => match grantable(
            &facts.tools,
            name.as_str(),
            tool.as_str(),
        ) {
            Err(why) => fail(why),
            Ok(_) => {
                let action: Action = Action::Grant {
                    name: own(name.as_str()),
                    tool: own(tool.as_str()),
                };
                (Stage::Granting { name, tool }, action)
            },
        },
        SecretCommand::Revoke { name, tool } => {
            if let Some(tool) = &tool {
                if let Err(why) = grantable(&facts.tools, name.as_str(), tool.as_str()) {
                    return fail(why);
                }
            }
            (Stage::Known { name, tool }, Action::List)
        },
        SecretCommand::Encrypt => if facts.sealed {
            fail(own("the store is already sealed; decrypt it first to change the password"))
        } else {
            (Stage::NewPassword, Action::Ask(own("New master password: ")))
        },
        SecretCommand::Decrypt => if facts.sealed {
            (Stage::OldPassword, Action::Ask(own("Master password: ")))
        } else {
            fail(own("the store is not sealed"))
        },
    }
}

/// Begin a command.
pub fn begin(facts: &StoreFacts, command: SecretCommand) -> (r: (Stage, Action))
    ensures
        (r.0@, r.1@) == begun(*facts, command@),
{
    let set: bool = match &command {
        SecretCommand::Store { .. } => true,
        _ => false,
    };
    if set {
        if let Some(why) = &facts.name_refusal {
            return fail(own(why.as_str()));
        }
    }
    let passwordless: bool = match &command {
        SecretCommand::Encrypt => true,
        SecretCommand::Decrypt => true,
        _ => false,
    };
    if passwordless || !facts.locked {
        begin_command(facts, command)
    } else {
        let (unlocking, _) = Unlocking::begin(true, CLI_PROMPT, 1);
        (Stage::Password { unlocking, command }, Action::Ask(own(CLI_PROMPT)))
    }
}

fn after_unlock(
    facts: &StoreFacts,
    command: SecretCommand,
    unlocking: Unlocking,
    step: UnlockStep,
) -> (r: (Stage, Action))
    ensures
        (r.0@, r.1@) == unlock_means(*facts, command@, (unlocking@, step@)),
{
    match step {
        UnlockStep::Ask(prompt) => (Stage::Password { unlocking, command }, Action::Ask(prompt)),
        UnlockStep::Try(password) => (
            Stage::Unlocked { unlocking, command },
            Action::Unlock(password),
        ),
        UnlockStep::Settled(open) => if open {
            begin_command(facts, command)
        } else {
            fail(
                own(
                    "the store is sealed; nothing can be read or written without the master password",
                ),
            )
        },
        UnlockStep::Failed(why) => fail(why),
    }
}

fn on_text(facts: &StoreFacts, stage: Stage, text: String) -> (r: (Stage, Action))
    ensures
        (r.0@, r.1@) == text_means(*facts, stage@, text),
{
    match stage {
        Stage::NewPassword => if text.as_str().unicode_len() < facts.min_password_chars {
            let least: String = decimal(facts.min_password_chars as u64);
            fail(
                cat3(
                    "a master password is at least ",
                    least.as_str(),
                    " characters; nothing sealed",
                ),
            )
        } else {
            (Stage::SamePassword { password: text }, Action::Ask(own("Again: ")))
        },
        Stage::SamePassword { password } => if same(text.as_str(), password.as_str()) {
            (Stage::Sealing, Action::Encrypt(password))
        } else {
            fail(own("the two did not match; nothing sealed"))
        },
        Stage::OldPassword => (Stage::Clearing, Action::Decrypt(text)),
        Stage::Password { unlocking, command } => {
            let mut unlocking: Unlocking = unlocking;
            let step: UnlockStep = unlocking.next(UnlockReply::Answer(text));
            after_unlock(facts, command, unlocking, step)
        },
        Stage::Value { name, description } => if facts.piped {
            let value: String = without_line_end(text.as_str());
            if value.as_str().is_empty() {
                fail(own("no value on stdin"))
            } else {
                let action: Action = Action::Store { name: own(name.as_str()), description, value };
                (Stage::Setting { name }, action)
            }
        } else if text.as_str().is_empty() {
            fail(own("no value given"))
        } else {
            (Stage::SameValue { name, description, value: text }, Action::Ask(own("Again: ")))
        },
        Stage::SameValue { name, description, value } => if same(text.as_str(), value.as_str()) {
            let action: Action = Action::Store { name: own(name.as_str()), description, value };
            (Stage::Setting { name }, action)
        } else {
            fail(own("the two did not match; nothing stored"))
        },
        _ => astray(),
    }
}

fn on_done(facts: &StoreFacts, stage: Stage, flag: bool) -> (r: (Stage, Action))
    ensures
        (r.0@, r.1@) == done_means(*facts, stage@, flag),
{
    let path: &str = facts.path.as_str();
    match stage {
        Stage::Sealing => print(
            cat3("Sealed ", path, "; every session asks for the master password once"),
        ),
        Stage::Clearing => print(cat2(path, " is in the clear again")),
        Stage::Unlocked { unlocking, command } => {
            let mut unlocking: Unlocking = unlocking;
            let step: UnlockStep = unlocking.next(UnlockReply::Opened);
            after_unlock(facts, command, unlocking, step)
        },
        Stage::Setting { name } => {
            let verb: &str = if flag {
                "Replaced "
            } else {
                "Stored "
            };
            print(cat4(verb, name.as_str(), " in ", path))
        },
        Stage::Removing { name } => if flag {
            print(cat2("Removed ", name.as_str()))
        } else {
            (Stage::Unknown { name }, Action::List)
        },
        Stage::Granting { name, tool } => if flag {
            print(cat4(tool.as_str(), " may use ", name.as_str(), " without asking"))
        } else {
            (Stage::Unknown { name }, Action::List)
        },
        Stage::Revoking { name, tool } => if flag {
            match tool {
                Some(tool) => print(
                    cat4(tool.as_str(), " will ask for ", name.as_str(), " again"),
                ),
                None => print(cat3("Every tool will ask for ", name.as_str(), " again")),
            }
        } else {
            print(cat2("Nothing to revoke for ", name.as_str()))
        },
        _ => astray(),
    }
}

fn on_listed(facts: &StoreFacts, stage: Stage, listed: &Vec<SecretInfo>) -> (r: (Stage, Action))
    ensures
        (r.0@, r.1@) == listed_means(*facts, stage@, views(listed@)),
{
    assert(views(listed@).len() == listed@.len());
    match stage {
        Stage::Listing => print(list_text(listed, facts.path.as_str())),
        Stage::Known { name, tool } => {
            let names: Vec<String> = stored_names(listed);
            if !same(name.as_str(), ROOT) && !has_text(&names, name.as_str()) {
                (Stage::Unknown { name }, Action::List)
            } else {
                let action: Action = Action::Revoke {
                    name: own(name.as_str()),
                    tool: copy_opt(&tool),
                };
                (Stage::Revoking { name, tool }, action)
            }
        },
        Stage::Unknown { name } => {
            let names: Vec<String> = stored_names(listed);
            fail(unknown_name(name.as_str(), &names))
        },
        _ => astray(),
    }
}

fn on_failure(facts: &StoreFacts, stage: Stage, why: String) -> (r: (Stage, Action))
    ensures
        (r.0@, r.1@) == failure_means(*facts, stage@, why),
{
    match stage {
        Stage::Unlocked { unlocking, command } => {
            let mut unlocking: Unlocking = unlocking;
            let step: UnlockStep = unlocking.next(UnlockReply::Wrong(why));
            after_unlock(facts, command, unlocking, step)
        },
        Stage::Unknown { name } => {
            let none: Vec<String> = Vec::new();
            fail(unknown_name(name.as_str(), &none))
        },
        Stage::Value { .. } => if facts.piped {
            let what: String = own("reading the value from stdin");
            (Stage::Over, Action::Fail { why: what, cause: Some(why) })
        } else {
            fail(why)
        },
        _ => fail(why),
    }
}

/// Go on with a command: given what came back, what to do next.
pub fn run(facts: &StoreFacts, stage: Stage, reply: Reply) -> (r: (Stage, Action))
    ensures
        (r.0@, r.1@) == next_action(*facts, stage@, reply),
{
    match reply {
        Reply::Text(text) => on_text(facts, stage, text),
        Reply::Done(flag) => on_done(facts, stage, flag),
        Reply::Listed(listed) => on_listed(facts, stage, &listed),
        Reply::Failed(why) => on_failure(facts, stage, why),
    }
}

/// Nothing is stored but what was typed twice the same, or came from a pipe, and
/// never an empty value.
pub proof fn law_only_a_given_value_is_stored(facts: StoreFacts, stage: StageView, reply: Reply)
    requires
        stage matches StageView::SameValue { value, .. } ==> value.len() > 0,
    ensures
        next_action(facts, stage, reply).1 matches ActionView::Store { value, .. } ==> {
            &&& value.len() > 0
            &&& reply is Text
            &&& stage is Value || stage is SameValue
            &&& stage is Value ==> facts.piped && value == trimmed_end(reply->Text_0@, line_end())
            &&& stage matches StageView::SameValue { value: first, .. } ==> value == first && value
                == reply->Text_0@
        },
        next_action(facts, stage, reply).0 matches StageView::SameValue { value, .. } ==> value.len()
            > 0,
{
}

/// A store is sealed only under a password that is long enough and was typed
/// twice the same.
pub proof fn law_sealing_takes_the_password_twice(
    facts: StoreFacts,
    stage: StageView,
    reply: Reply,
)
    requires
        stage matches StageView::SamePassword { password } ==> password.len()
            >= facts.min_password_chars,
    ensures
        next_action(facts, stage, reply).1 matches ActionView::Encrypt(password) ==> {
            &&& stage == StageView::SamePassword { password }
            &&& reply is Text
            &&& reply->Text_0@ == password
            &&& password.len() >= facts.min_password_chars
        },
        next_action(facts, stage, reply).0 matches StageView::SamePassword { password }
            ==> password.len() >= facts.min_password_chars,
{
}

/// A locked store is asked for its password before anything else is done with it.
pub proof fn law_a_locked_store_asks_first(facts: StoreFacts, command: CommandView)
    requires
        facts.locked,
        !(command is Encrypt),
        !(command is Decrypt),
    ensures
        begun(facts, command).1 == ActionView::Ask(CLI_PROMPT@) || (command is Store
            && facts.name_refusal is Some && begun(facts, command).1 is Fail),
{
}

} // verus!
