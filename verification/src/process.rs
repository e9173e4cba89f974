//! Commands: expanding a command template against an environment and
//! describing how the result is to be launched.
//!
//! Nothing here starts a process. [`Process::run`] and [`Process::exec`]
//! return a [`Launch`], which says what to start, where, and with which
//! environment; the caller carries it out and reports what happened as an
//! [`Outcome`], which [`Launch::finish`] turns into the captured text or an
//! error.

use vstd::prelude::*;
use vstd::utf8::{decode_utf8, encode_utf8, encode_utf8_decode_utf8, valid_utf8};
use crate::env::{bindings_of, lookup, overlay, unique_keys, Binding, Env};
use crate::text::{
    chars_of, lemma_replace_absent, occurs, replace, replace_all, string_of, texts_of,
};

verus! {

/// The text that stands for `key` in a command template: a dollar sign and
/// the key.
pub open spec fn placeholder(key: Seq<char>) -> Seq<char> {
    seq!['$'] + key
}

/// `template` expanded against `env`: for each binding in turn, first to
/// last, every occurrence of the key's placeholder is replaced by the value.
/// A placeholder whose key `env` does not bind stays as it is.
pub open spec fn expand(template: Seq<char>, env: Seq<Binding>) -> Seq<char>
    decreases env.len(),
{
    if env.len() == 0 {
        template
    } else {
        replace_all(expand(template, env.drop_last()), placeholder(env.last().0), env.last().1)
    }
}

/// The environment that a command sees: the base environment, with the
/// overrides on top where there are any.
pub open spec fn effective(base: Seq<Binding>, custom: Option<Seq<Binding>>) -> Seq<Binding> {
    match custom {
        Some(over) => overlay(base, over),
        None => base,
    }
}

/// The key whose value names the working directory.
pub open spec fn cwd_key() -> Seq<char> {
    seq!['c', 'w', 'd']
}

/// The directory a command runs in: the working directory it was given;
/// without one, the value of `cwd` in the environment; without that, `.`.
pub open spec fn directory(cwd: Option<Seq<char>>, env: Seq<Binding>) -> Seq<char> {
    match cwd {
        Some(dir) => dir,
        None => match lookup(env, cwd_key()) {
            Some(dir) => dir,
            None => seq!['.'],
        },
    }
}

/// The words of the shell invocation that runs `command`: `sh -c command`.
pub open spec fn shell_words(command: Seq<char>) -> Seq<Seq<char>> {
    seq![seq!['s', 'h'], seq!['-', 'c'], command]
}

/// The view of an optional string.
pub open spec fn text_of(s: Option<String>) -> Option<Seq<char>> {
    match s {
        Some(s) => Some(s@),
        None => None,
    }
}

/// The view of an optional environment.
pub open spec fn env_of(env: Option<Env>) -> Option<Seq<Binding>> {
    match env {
        Some(env) => Some(env@),
        None => None,
    }
}

/// A template in which the placeholder of no bound key occurs is its own
/// expansion.
pub proof fn lemma_expand_untouched(template: Seq<char>, env: Seq<Binding>)
    requires
        forall|i: int| 0 <= i < env.len() ==> !occurs(template, placeholder(#[trigger] env[i].0)),
    ensures
        expand(template, env) == template,
    decreases env.len(),
{
    if env.len() > 0 {
        let init = env.drop_last();
        lemma_expand_untouched(template, init);
        lemma_replace_absent(template, placeholder(env.last().0), env.last().1);
    }
}

/// A template without a dollar sign is its own expansion, whatever the
/// environment binds.
pub proof fn lemma_expand_plain(template: Seq<char>, env: Seq<Binding>)
    requires
        !template.contains('$'),
    ensures
        expand(template, env) == template,
{
    assert forall|i: int| 0 <= i < env.len() implies !occurs(
        template,
        placeholder(#[trigger] env[i].0),
    ) by {
        let pat = placeholder(env[i].0);
        assert forall|k: int| 0 <= k <= template.len() implies !pat.is_prefix_of(
            #[trigger] template.skip(k),
        ) by {
            if pat.is_prefix_of(template.skip(k)) {
                assert(template.skip(k).subrange(0, pat.len() as int)[0] == pat[0]);
            }
        }
    }
    lemma_expand_untouched(template, env);
}

/// What went wrong with a launch.
#[derive(Clone, Copy, Debug, PartialEq, Eq, Structural)]
pub enum ProcessError {
    /// The working directory does not exist or cannot be made canonical.
    PathResolution,
    /// The shell could not be started, or what it wrote is not valid text.
    Execution,
}

/// Where the environment of a launch goes.
#[derive(Clone, Copy, Debug, PartialEq, Eq, Structural)]
pub enum Scope {
    /// To the child alone; the launching process keeps its environment.
    Child,
    /// Into the environment of the launching process, for good; the child
    /// inherits it.
    Process,
}

/// What the caller reports of a launch that it carried out.
#[derive(Debug)]
pub enum Outcome {
    /// The directory could not be resolved.
    Unresolved,
    /// The shell could not be started.
    NotStarted,
    /// The child has exited; these bytes are what it wrote to its standard
    /// output.
    Exited(Vec<u8>),
}

/// A command's template, working directory and base environment.
pub struct ProcessView {
    pub command: Seq<char>,
    pub cwd: Option<Seq<char>>,
    pub output: Option<Seq<char>>,
    pub env: Seq<Binding>,
}

/// A launch, as plain values.
pub struct LaunchView {
    pub command: Seq<char>,
    pub directory: Seq<char>,
    pub env: Seq<Binding>,
    pub scope: Scope,
}

/// A command: its template, where it runs, and what it is expanded against.
#[derive(Debug)]
pub struct Process {
    command: String,
    cwd: Option<String>,
    output: Option<String>,
    env: Env,
}

/// A launch to carry out: install `env` as `scope` says, resolve `directory`
/// to a canonical path, start `sh -c command` in that directory, wait for it
/// and capture its standard output.
#[derive(Debug)]
pub struct Launch {
    command: String,
    directory: String,
    env: Env,
    scope: Scope,
}

impl View for Process {
    type V = ProcessView;

    closed spec fn view(&self) -> ProcessView {
        ProcessView {
            command: self.command@,
            cwd: text_of(self.cwd),
            output: text_of(self.output),
            env: self.env@,
        }
    }
}

impl View for Launch {
    type V = LaunchView;

    closed spec fn view(&self) -> LaunchView {
        LaunchView {
            command: self.command@,
            directory: self.directory@,
            env: self.env@,
            scope: self.scope,
        }
    }
}

/// Taken on trust: `String::from_utf8` gives the string whose UTF-8 encoding
/// is `bytes`, and fails exactly where `bytes` is not valid UTF-8.
#[verifier::external_body]
fn from_utf8(bytes: Vec<u8>) -> (text: Option<String>)
    ensures
        text is Some <==> valid_utf8(bytes@),
        text matches Some(s) ==> encode_utf8(s@) == bytes@,
{
    match String::from_utf8(bytes) {
        Ok(s) => Some(s),
        Err(_) => None,
    }
}

/// Expands `template` against `env`.
pub fn expanded(template: &str, env: &Env) -> (out: String)
    ensures
        out@ == expand(template@, env@),
{
    let pairs = env.bindings();
    let mut text = chars_of(template);
    let mut i: usize = 0;
    while i < pairs.len()
        invariant
            i <= pairs.len(),
            bindings_of(pairs@) == env@,
            text@ == expand(template@, env@.take(i as int)),
        decreases pairs.len() - i,
    {
        let mut pat: Vec<char> = Vec::new();
        pat.push('$');
        let key = chars_of(pairs[i].0.as_str());
        pat.extend_from_slice(key.as_slice());
        let to = chars_of(pairs[i].1.as_str());
        assert(pat@ =~= placeholder(env@[i as int].0));
        assert(env@.take(i + 1).drop_last() =~= env@.take(i as int));
        text = replace(&text, &pat, &to);
        i = i + 1;
    }
    assert(env@.take(i as int) =~= env@);
    string_of(&text)
}

impl Process {
    /// A command with its template, an optional working directory, an
    /// optional place for its output, and its base environment (empty where
    /// none is given).
    pub fn new(
        command: String,
        cwd: Option<String>,
        output: Option<String>,
        env: Option<Env>,
    ) -> (process: Process)
        ensures
            process@ == (ProcessView {
                command: command@,
                cwd: text_of(cwd),
                output: text_of(output),
                env: match env {
                    Some(env) => env@,
                    None => Seq::empty(),
                },
            }),
    {
        Process {
            command,
            cwd,
            output,
            env: match env {
                Some(env) => env,
                None => Env::new(),
            },
        }
    }

    /// The command template.
    pub fn command(&self) -> (command: &str)
        ensures
            command@ == self@.command,
    {
        self.command.as_str()
    }

    /// Where the command's output is meant to go, as given to `new`.
    pub fn output(&self) -> (output: Option<&String>)
        ensures
            match output {
                Some(s) => self@.output == Some(s@),
                None => self@.output is None,
            },
    {
        self.output.as_ref()
    }

    /// The base environment.
    pub fn env(&self) -> (env: &Env)
        ensures
            env@ == self@.env,
    {
        &self.env
    }

    /// The base environment with `custom_env` on top: where both bind a
    /// key, the value is that of `custom_env`.
    pub fn effective_env(&self, custom_env: Option<&Env>) -> (env: Env)
        ensures
            env@ == effective(
                self@.env,
                match custom_env {
                    Some(over) => Some(over@),
                    None => None,
                },
            ),
            unique_keys(env@),
    {
        match custom_env {
            Some(over) => self.env.overlaid(over),
            None => self.env.clone(),
        }
    }

    /// The command template expanded against the effective environment.
    pub fn expanded_command(&self, custom_env: Option<&Env>) -> (out: String)
        ensures
            out@ == expand(
                self@.command,
                effective(
                    self@.env,
                    match custom_env {
                        Some(over) => Some(over@),
                        None => None,
                    },
                ),
            ),
    {
        let env = self.effective_env(custom_env);
        expanded(self.command.as_str(), &env)
    }

    /// The directory that the command runs in under `env`, not yet
    /// resolved.
    fn directory_in(&self, env: &Env) -> (dir: String)
        ensures
            dir@ == directory(self@.cwd, env@),
    {
        match &self.cwd {
            Some(dir) => dir.clone(),
            None => {
                let key = "cwd";
                proof {
                    reveal_strlit("cwd");
                    reveal_strlit(".");
                    assert(key@ =~= cwd_key());
                }
                match env.get(key) {
                    Some(dir) => dir.clone(),
                    None => ".".to_owned(),
                }
            },
        }
    }

    /// The directory that the command runs in under its base environment,
    /// not yet resolved to a canonical path.
    pub fn cwd(&self) -> (dir: String)
        ensures
            dir@ == directory(self@.cwd, self@.env),
    {
        self.directory_in(&self.env)
    }

    /// The launch of `scope` under the base environment with `options` on
    /// top.
    fn launch(&self, options: Option<Env>, scope: Scope) -> (launch: Launch)
        ensures
            launch@ == (LaunchView {
                command: expand(self@.command, effective(self@.env, env_of(options))),
                directory: directory(self@.cwd, effective(self@.env, env_of(options))),
                env: effective(self@.env, env_of(options)),
                scope,
            }),
    {
        let env = self.effective_env(options.as_ref());
        let command = expanded(self.command.as_str(), &env);
        let directory = self.directory_in(&env);
        Launch { command, directory, env, scope }
    }

    /// The launch that captures the command's output and leaves the
    /// launching process as it was: the effective environment goes to the
    /// child alone.
    pub fn run(&self, options: Option<Env>) -> (launch: Launch)
        ensures
            launch@ == (LaunchView {
                command: expand(self@.command, effective(self@.env, env_of(options))),
                directory: directory(self@.cwd, effective(self@.env, env_of(options))),
                env: effective(self@.env, env_of(options)),
                scope: Scope::Child,
            }),
    {
        self.launch(options, Scope::Child)
    }

    /// The launch that hands the launching process over to the command: as
    /// `run`, but the effective environment is installed in the launching
    /// process itself and stays there.
    pub fn exec(&mut self, options: Option<Env>) -> (launch: Launch)
        ensures
            *final(self) == *old(self),
            launch@ == (LaunchView {
                command: expand(old(self)@.command, effective(old(self)@.env, env_of(options))),
                directory: directory(old(self)@.cwd, effective(old(self)@.env, env_of(options))),
                env: effective(old(self)@.env, env_of(options)),
                scope: Scope::Process,
            }),
    {
        self.launch(options, Scope::Process)
    }
}

impl Launch {
    /// The expanded command, the argument of `sh -c`.
    pub fn command(&self) -> (command: &str)
        ensures
            command@ == self@.command,
    {
        self.command.as_str()
    }

    /// The directory to resolve and to start the shell in.
    pub fn directory(&self) -> (directory: &str)
        ensures
            directory@ == self@.directory,
    {
        self.directory.as_str()
    }

    /// The environment to install.
    pub fn env(&self) -> (env: &Env)
        ensures
            env@ == self@.env,
    {
        &self.env
    }

    /// Where the environment goes.
    pub fn scope(&self) -> (scope: Scope)
        ensures
            scope == self@.scope,
    {
        self.scope
    }

    /// The program to start and its arguments: `sh`, `-c` and the command.
    pub fn argv(&self) -> (words: Vec<String>)
        ensures
            texts_of(words@) == shell_words(self@.command),
    {
        proof {
            reveal_strlit("sh");
            reveal_strlit("-c");
        }
        let mut words: Vec<String> = Vec::new();
        words.push("sh".to_owned());
        words.push("-c".to_owned());
        words.push(self.command.clone());
        assert(texts_of(words@) =~= shell_words(self@.command)) by {
            assert(texts_of(words@)[0] =~= seq!['s', 'h']);
            assert(texts_of(words@)[1] =~= seq!['-', 'c']);
        }
        words
    }

    /// The result of a launch, from what the caller reports of it: the text
    /// that the child wrote, or the error. An unresolved directory is a
    /// `PathResolution` error; a shell that did not start, and output that
    /// is not valid UTF-8, are `Execution` errors.
    pub fn finish(outcome: Outcome) -> (result: Result<String, ProcessError>)
        ensures
            match outcome {
                Outcome::Unresolved => result == Err::<String, ProcessError>(
                    ProcessError::PathResolution,
                ),
                Outcome::NotStarted => result == Err::<String, ProcessError>(
                    ProcessError::Execution,
                ),
                Outcome::Exited(bytes) => if valid_utf8(bytes@) {
                    result matches Ok(text) && text@ == decode_utf8(bytes@)
                } else {
                    result == Err::<String, ProcessError>(ProcessError::Execution)
                },
            },
    {
        match outcome {
            Outcome::Unresolved => Err(ProcessError::PathResolution),
            Outcome::NotStarted => Err(ProcessError::Execution),
            Outcome::Exited(bytes) => {
                match from_utf8(bytes) {
                    Some(text) => {
                        proof {
                            encode_utf8_decode_utf8(text@);
                        }
                        Ok(text)
                    },
                    None => Err(ProcessError::Execution),
                }
            },
        }
    }
}

} // verus!
