use rustman_lib::env::Env;
use rustman_lib::process::{expanded, Launch, Outcome, Process, ProcessError, Scope};

const TEST_BIN: &str = "tests/test.sh";
const ENV_BIN: &str = "tests/env.sh";
const ECHO_BIN: &str = "tests/echo.sh";

fn env_of(pairs: &[(&str, &str)]) -> Env {
    let mut env = Env::new();
    for (key, value) in pairs {
        env.insert(key.to_string(), value.to_string());
    }
    env
}

// Stands in for the shell and the three scripts that the launches name:
// test.sh prints "testing", env.sh prints the value of the variable it is
// given, echo.sh prints its arguments.
fn carry_out(launch: &Launch) -> Outcome {
    let argv = launch.argv();
    assert_eq!(argv.len(), 3);
    assert_eq!(argv[0], "sh");
    assert_eq!(argv[1], "-c");
    let words: Vec<&str> = argv[2].split(' ').collect();
    let out = if words[0] == TEST_BIN {
        "testing\n".to_string()
    } else if words[0] == ENV_BIN {
        match launch.env().get(words[1]) {
            Some(value) => format!("{}\n", value),
            None => "\n".to_string(),
        }
    } else if words[0] == ECHO_BIN || words[0] == "echo" {
        format!("{}\n", words[1..].join(" "))
    } else {
        return Outcome::NotStarted;
    };
    Outcome::Exited(out.into_bytes())
}

fn run(process: Process, options: Option<Env>) -> String {
    let launch = process.run(options);
    assert_eq!(launch.scope(), Scope::Child);
    Launch::finish(carry_out(&launch)).unwrap()
}

fn exec(mut process: Process, options: Option<Env>) -> String {
    let launch = process.exec(options);
    assert_eq!(launch.scope(), Scope::Process);
    Launch::finish(carry_out(&launch)).unwrap()
}

#[test]
fn test_cwd() {
    let process = Process::new("true".to_string(), None, None, None);
    assert_eq!(process.cwd(), ".");
    let process = Process::new("true".to_string(), None, None, Some(env_of(&[("cwd", "/srv/app")])));
    assert_eq!(process.cwd(), "/srv/app");
    let process = Process::new(
        "true".to_string(),
        Some("/opt/web".to_string()),
        None,
        Some(env_of(&[("cwd", "/srv/app")])),
    );
    assert_eq!(process.cwd(), "/opt/web");
}

#[test]
fn test_chdir() {
    let process = Process::new("true".to_string(), None, None, Some(env_of(&[("cwd", "/srv/app")])));
    assert_eq!(process.run(None).directory(), "/srv/app");
    assert_eq!(process.run(Some(env_of(&[("cwd", "/tmp")]))).directory(), "/tmp");
    let process = Process::new("true".to_string(), None, None, None);
    assert_eq!(process.run(None).directory(), ".");
}

#[test]
fn test_exec() {
    let mut process = Process::new(
        "serve $PORT".to_string(),
        None,
        None,
        Some(env_of(&[("PORT", "80"), ("HOST", "here")])),
    );
    let launch = process.exec(Some(env_of(&[("PORT", "8080")])));
    assert_eq!(launch.command(), "serve 8080");
    assert_eq!(launch.directory(), ".");
    assert_eq!(launch.scope(), Scope::Process);
    assert_eq!(
        launch.env().bindings(),
        vec![
            ("PORT".to_string(), "8080".to_string()),
            ("HOST".to_string(), "here".to_string())
        ]
    );
    assert_eq!(process.command(), "serve $PORT");
    assert_eq!(process.env().get("PORT"), Some(&"80".to_string()));
}

#[test]
fn test_run() {
    let process = Process::new(
        "serve $PORT".to_string(),
        None,
        None,
        Some(env_of(&[("PORT", "80"), ("HOST", "here")])),
    );
    let launch = process.run(Some(env_of(&[("PORT", "8080"), ("cwd", "/srv")])));
    assert_eq!(launch.command(), "serve 8080");
    assert_eq!(launch.directory(), "/srv");
    assert_eq!(launch.scope(), Scope::Child);
    assert_eq!(
        launch.argv(),
        vec!["sh".to_string(), "-c".to_string(), "serve 8080".to_string()]
    );
    assert_eq!(
        launch.env().bindings(),
        vec![
            ("PORT".to_string(), "8080".to_string()),
            ("HOST".to_string(), "here".to_string()),
            ("cwd".to_string(), "/srv".to_string())
        ]
    );
}

#[test]
fn test_expanded_command() {
    let process = Process::new("echo hi".to_string(), None, None, None);
    assert_eq!(process.expanded_command(None), "echo hi");
    let process = Process::new("echo $FOO".to_string(), None, None, Some(env_of(&[("FOO", "bar")])));
    assert_eq!(process.expanded_command(None), "echo bar");
}

#[test]
fn test_runs_the_process() {
    let process = Process::new(TEST_BIN.to_string(), None, None, None);
    assert_eq!("testing\n", run(process, None));
}

#[test]
fn test_can_set_environment() {
    let mut env = Env::new();
    env.insert("FOO".to_string(), "bar".to_string());
    let process = Process::new(format!("{} FOO", ENV_BIN), None, None, Some(env));
    assert_eq!("bar\n", run(process, None));
}

#[test]
fn test_can_handle_env_vars_in_the_command() {
    let hello = String::from("Ol√°");
    assert_eq!(hello.chars().count(), 4);

    let mut env = Env::new();
    env.insert("FOO".to_string(), "bar".to_string());
    let process = Process::new(format!("{} $FOO", ECHO_BIN), None, None, Some(env));
    assert_eq!("bar\n", run(process, None));
}

#[test]
fn test_can_handle_per_run_env_vars_in_the_command() {
    let mut env = Env::new();
    env.insert("FOO".to_string(), "bar".to_string());
    let process = Process::new(format!("{} $FOO", ECHO_BIN), None, None, None);
    assert_eq!("bar\n", run(process, Some(env)));
}

#[test]
fn test_can_expand_env_in_the_command() {
    let mut env = Env::new();
    env.insert("FOO".to_string(), "bar".to_string());
    let process = Process::new("command $FOO $BAR".to_string(), None, None, Some(env));
    assert_eq!("command bar $BAR", process.expanded_command(None));
}

#[test]
fn test_can_expand_extra_env_in_the_command() {
    let mut env = Env::new();
    env.insert("FOO".to_string(), "bar".to_string());
    let process = Process::new("command $FOO $BAR".to_string(), None, None, Some(env));
    let mut env = Env::new();
    env.insert("BAR".to_string(), "qux".to_string());
    assert_eq!("command bar qux", process.expanded_command(Some(&env)));
}

#[test]
fn test_can_execute() {
    let process = Process::new(TEST_BIN.to_string(), None, None, None);
    assert_eq!("testing\n", exec(process, None));
}

#[test]
fn test_can_execute_with_env() {
    let mut env = Env::new();
    env.insert("FOO".to_string(), "bar".to_string());
    let process = Process::new(format!("{} FOO", ENV_BIN), None, None, None);
    assert_eq!("bar\n", exec(process, Some(env)));
}

#[test]
fn run_captures_what_the_command_wrote() {
    let process = Process::new("echo testing".to_string(), None, None, None);
    let launch = process.run(None);
    assert_eq!(launch.command(), "echo testing");
    assert_eq!(
        launch.argv(),
        vec!["sh".to_string(), "-c".to_string(), "echo testing".to_string()]
    );
    assert_eq!(launch.env().len(), 0);
    assert_eq!(Launch::finish(carry_out(&launch)), Ok("testing\n".to_string()));
}

#[test]
fn expansion_without_placeholder_returns_the_template() {
    assert_eq!(expanded("echo hi", &Env::new()), "echo hi");
    assert_eq!(expanded("echo hi", &env_of(&[("FOO", "bar"), ("hi", "there")])), "echo hi");
    assert_eq!(expanded("", &env_of(&[("FOO", "bar")])), "");
}

#[test]
fn expansion_substitutes_every_occurrence() {
    let env = env_of(&[("FOO", "bar")]);
    assert_eq!(expanded("echo $FOO", &env), "echo bar");
    assert_eq!(expanded("$FOO$FOO and $FOO", &env), "barbar and bar");
    assert_eq!(expanded("$FO $ FOO $", &env), "$FO $ FOO $");
}

#[test]
fn expansion_keeps_an_unmatched_placeholder() {
    let env = env_of(&[("FOO", "bar")]);
    assert_eq!(expanded("echo $FOO $BAZ", &env), "echo bar $BAZ");
}

#[test]
fn expansion_prefers_the_override() {
    let process =
        Process::new("echo $FOO".to_string(), None, None, Some(env_of(&[("FOO", "base")])));
    assert_eq!(process.expanded_command(None), "echo base");
    assert_eq!(process.expanded_command(Some(&env_of(&[("FOO", "override")]))), "echo override");
    assert_eq!(process.run(Some(env_of(&[("FOO", "override")]))).command(), "echo override");
}

#[test]
fn expansion_goes_through_the_bindings_in_order() {
    // A value is not searched for the key that it replaces, but a later
    // binding sees what an earlier one put in.
    let env = env_of(&[("A", "$B"), ("B", "$A")]);
    assert_eq!(expanded("$A $B", &env), "$A $A");
    let env = env_of(&[("FOO", "x"), ("FOOBAR", "y")]);
    assert_eq!(expanded("$FOOBAR", &env), "xBAR");
    let env = env_of(&[("FOOBAR", "y"), ("FOO", "x")]);
    assert_eq!(expanded("$FOOBAR $FOO", &env), "y x");
}

#[test]
fn expansion_of_the_reserved_key_needs_a_placeholder() {
    let env = env_of(&[("cwd", "/srv")]);
    assert_eq!(expanded("ls cwd", &env), "ls cwd");
    assert_eq!(expanded("ls $cwd", &env), "ls /srv");
}

#[test]
fn env_insert_replaces_in_place() {
    let mut env = env_of(&[("A", "1"), ("B", "2")]);
    assert_eq!(env.len(), 2);
    env.insert("A".to_string(), "3".to_string());
    assert_eq!(env.len(), 2);
    assert_eq!(
        env.bindings(),
        vec![("A".to_string(), "3".to_string()), ("B".to_string(), "2".to_string())]
    );
    assert_eq!(env.get("A"), Some(&"3".to_string()));
    assert_eq!(env.get("C"), None);
    assert_eq!(env.get(""), None);
}

#[test]
fn env_overlay_lets_the_override_win() {
    let base = env_of(&[("FOO", "base"), ("KEEP", "k")]);
    let over = env_of(&[("NEW", "n"), ("FOO", "override")]);
    let merged = base.overlaid(&over);
    assert_eq!(
        merged.bindings(),
        vec![
            ("FOO".to_string(), "override".to_string()),
            ("KEEP".to_string(), "k".to_string()),
            ("NEW".to_string(), "n".to_string())
        ]
    );
    assert_eq!(base.get("FOO"), Some(&"base".to_string()));
    assert_eq!(base.clone().bindings(), base.bindings());
    assert_eq!(base.overlaid(&Env::new()).bindings(), base.bindings());
}

#[test]
fn effective_env_without_override_is_the_base() {
    let process = Process::new("x".to_string(), None, None, Some(env_of(&[("A", "1")])));
    assert_eq!(process.effective_env(None).bindings(), vec![("A".to_string(), "1".to_string())]);
    let process = Process::new("x".to_string(), None, Some("log".to_string()), None);
    assert_eq!(process.effective_env(None).len(), 0);
    assert_eq!(process.output(), Some(&"log".to_string()));
}

#[test]
fn run_leaves_the_environment_to_the_child() {
    let process = Process::new(format!("{} FOO", ENV_BIN), None, None, None);
    let launch = process.run(Some(env_of(&[("FOO", "bar")])));
    assert_eq!(launch.scope(), Scope::Child);
    assert_eq!(launch.env().get("FOO"), Some(&"bar".to_string()));
    let mut process = Process::new(format!("{} FOO", ENV_BIN), None, None, None);
    let launch = process.exec(Some(env_of(&[("FOO", "bar")])));
    assert_eq!(launch.scope(), Scope::Process);
    assert_eq!(launch.env().get("FOO"), Some(&"bar".to_string()));
}

#[test]
fn finish_gives_the_captured_text() {
    assert_eq!(Launch::finish(Outcome::Exited(b"testing\n".to_vec())), Ok("testing\n".to_string()));
    assert_eq!(Launch::finish(Outcome::Exited(Vec::new())), Ok(String::new()));
    assert_eq!(
        Launch::finish(Outcome::Exited(vec![0x4f, 0x6c, 0xc3, 0xa1])),
        Ok("Ol\u{e1}".to_string())
    );
}

#[test]
fn finish_rejects_output_that_is_not_text() {
    assert_eq!(Launch::finish(Outcome::Exited(vec![0xe2])), Err(ProcessError::Execution));
    assert_eq!(Launch::finish(Outcome::Exited(vec![0x61, 0xff, 0x62])), Err(ProcessError::Execution));
    assert_eq!(Launch::finish(Outcome::Exited(vec![0xed, 0xa0, 0x80])), Err(ProcessError::Execution));
    assert_eq!(Launch::finish(Outcome::Exited(vec![0xc0, 0x80])), Err(ProcessError::Execution));
}

#[test]
fn finish_reports_what_failed() {
    assert_eq!(Launch::finish(Outcome::Unresolved), Err(ProcessError::PathResolution));
    assert_eq!(Launch::finish(Outcome::NotStarted), Err(ProcessError::Execution));
}
