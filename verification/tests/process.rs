use kunger::domain::ProviderError;
use kunger::process::{
    check_exit, map_run_error, spawn_error, take_within_limit, CommandOutput, CommandSpec, ProcessRunner,
    RunError,
};

fn output(exit_code: Option<i32>) -> CommandOutput {
    CommandOutput {
        stdout: "out".to_string(),
        stderr: "boom".to_string(),
        exit_code,
    }
}

#[test]
fn command_spec_keeps_arguments_in_order_as_a_list() {
    let spec = CommandSpec::new("echo")
        .arg("safe; echo pwned")
        .args(vec!["a".to_string(), "b".to_string()]);
    assert_eq!(spec.program, "echo");
    assert_eq!(spec.args, vec!["safe; echo pwned", "a", "b"]);
}

#[test]
fn default_runner_allows_fifteen_seconds_and_eight_mebibytes() {
    let runner = ProcessRunner::default();
    assert_eq!(runner.timeout_ms, 15_000);
    assert_eq!(runner.max_output_bytes, 8 * 1024 * 1024);
    let custom = ProcessRunner::new(250, 64);
    assert_eq!((custom.timeout_ms, custom.max_output_bytes), (250, 64));
}

#[test]
fn check_exit_accepts_only_status_zero() {
    assert_eq!(check_exit("dpkg-query", output(Some(0))), Ok(output(Some(0))));
    assert_eq!(
        check_exit("dpkg-query", output(Some(2))),
        Err(RunError::NonZeroExit("dpkg-query".to_string(), 2, "boom".to_string()))
    );
    assert_eq!(
        check_exit("dpkg-query", output(None)),
        Err(RunError::NonZeroExit("dpkg-query".to_string(), -1, "boom".to_string()))
    );
}

#[test]
fn spawn_error_tells_a_missing_command_from_other_failures() {
    assert_eq!(spawn_error("fc-list", true, "No such file"), RunError::NotFound("fc-list".to_string()));
    assert_eq!(
        spawn_error("fc-list", false, "permission denied"),
        RunError::SpawnFailed("fc-list".to_string(), "permission denied".to_string())
    );
}

#[test]
fn take_within_limit_keeps_what_fits_and_marks_the_cut() {
    assert_eq!(take_within_limit(0, 10, 100), (10, false));
    assert_eq!(take_within_limit(90, 10, 100), (10, false));
    assert_eq!(take_within_limit(95, 10, 100), (5, true));
    assert_eq!(take_within_limit(100, 1, 100), (0, true));
}

#[test]
fn run_error_messages_name_the_command() {
    assert_eq!(
        RunError::NotFound("flatpak".to_string()).message(),
        "command `flatpak` was not found on PATH"
    );
    assert_eq!(
        RunError::TimedOut("flatpak".to_string(), 5000).message(),
        "command `flatpak` timed out after 5s"
    );
    assert_eq!(
        RunError::TimedOut("apt".to_string(), 1500).message(),
        "command `apt` timed out after 1.5s"
    );
    assert_eq!(
        RunError::NonZeroExit("apt".to_string(), -3, "bad".to_string()).message(),
        "command `apt` exited with status -3: bad"
    );
    assert_eq!(
        RunError::OutputTooLarge("apt".to_string(), 1024).message(),
        "command `apt` output exceeded the 1024 byte limit"
    );
    assert_eq!(
        RunError::SpawnFailed("apt".to_string(), "denied".to_string()).message(),
        "failed to run `apt`: denied"
    );
}

#[test]
fn map_run_error_keeps_missing_commands_and_timeouts_apart() {
    assert_eq!(
        map_run_error(&RunError::NotFound("dpkg".to_string())),
        ProviderError::CommandNotFound("dpkg".to_string())
    );
    assert_eq!(
        map_run_error(&RunError::TimedOut("dpkg".to_string(), 2000)),
        ProviderError::Timeout("dpkg timed out after 2s".to_string())
    );
    assert_eq!(
        map_run_error(&RunError::NonZeroExit("dpkg".to_string(), 1, "err".to_string())),
        ProviderError::Other("dpkg exited with status 1: err".to_string())
    );
    assert_eq!(
        map_run_error(&RunError::SpawnFailed("dpkg".to_string(), "denied".to_string())),
        ProviderError::Other("failed to run dpkg: denied".to_string())
    );
}
