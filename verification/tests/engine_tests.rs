//! Tests of the execution engine's state machine: stage order, piping,
//! failure handling and the rendered failure messages.

use std::cell::Cell;

use echoflow::engine::run_chain;
use echoflow::engine::ChainRun;
use echoflow::engine::RunFailure;
use echoflow::engine::StageOutcome;

fn exited(success: bool, stdout: &str, stderr: &str) -> StageOutcome {
    StageOutcome::Exited {
        success,
        stdout: stdout.to_string(),
        stderr: stderr.to_string(),
    }
}

#[test]
fn empty_chain_succeeds_with_no_outputs() {
    let result = run_chain(vec![], |_c: String, _i: String| -> StageOutcome {
        panic!("no stage may run for an empty chain");
    });
    assert_eq!(result, Ok(vec![]));
}

#[test]
fn single_stage_captures_its_output() {
    let mut run = ChainRun::new(vec!["echo hello".to_string()]);
    let (command, input) = run.next_stage().unwrap();
    assert_eq!(command, "echo hello");
    assert_eq!(input, "");
    run.record_outcome(exited(true, "hello\n", ""));
    assert!(!run.is_running());
    assert_eq!(run.result(), Ok(vec!["hello\n".to_string()]));
}

#[test]
fn second_stage_reads_first_stage_output() {
    let mut run = ChainRun::new(vec!["echo hello".to_string(), "wc -w".to_string()]);
    let (first, first_input) = run.next_stage().unwrap();
    assert_eq!(first, "echo hello");
    assert_eq!(first_input, "");
    run.record_outcome(exited(true, "hello\n", ""));
    let (second, second_input) = run.next_stage().unwrap();
    assert_eq!(second, "wc -w");
    assert_eq!(second_input, "hello\n");
    run.record_outcome(exited(true, "1\n", ""));
    assert_eq!(
        run.result(),
        Ok(vec!["hello\n".to_string(), "1\n".to_string()])
    );
}

#[test]
fn failing_stage_ends_the_run_with_its_stderr() {
    let mut run = ChainRun::new(vec!["false".to_string()]);
    run.next_stage().unwrap();
    run.record_outcome(exited(false, "", "it broke\n"));
    assert!(!run.is_running());
    match run.result() {
        Err(RunFailure::StageExitFailure { stderr }) => assert_eq!(stderr, "it broke\n"),
        other => panic!("expected a stage-exit failure, got {:?}", other.is_ok()),
    }
}

#[test]
fn no_stage_is_due_after_a_failure() {
    let mut run = ChainRun::new(vec!["exit 1".to_string(), "echo should-not-run".to_string()]);
    run.next_stage().unwrap();
    run.record_outcome(exited(false, "", ""));
    assert_eq!(run.next_stage(), None);
}

#[test]
fn run_chain_stops_at_the_first_failure() {
    let calls = Cell::new(0usize);
    let commands = vec!["exit 1".to_string(), "echo should-not-run".to_string()];
    let result = run_chain(commands, |_c: String, _i: String| -> StageOutcome {
        calls.set(calls.get() + 1);
        exited(false, "", "stage one failed\n")
    });
    assert_eq!(calls.get(), 1);
    match result {
        Err(RunFailure::StageExitFailure { stderr }) => {
            assert_eq!(stderr, "stage one failed\n")
        }
        other => panic!("expected a stage-exit failure, got {:?}", other.is_ok()),
    }
}

#[test]
fn run_chain_pipes_each_output_forward() {
    let commands = vec!["a".to_string(), "b".to_string(), "c".to_string()];
    let result = run_chain(commands, |c: String, i: String| -> StageOutcome {
        exited(true, &format!("ran {} on [{}];", c, i), "")
    });
    assert_eq!(
        result,
        Ok(vec![
            "ran a on [];".to_string(),
            "ran b on [ran a on [];];".to_string(),
            "ran c on [ran b on [ran a on [];];];".to_string(),
        ])
    );
}

#[test]
fn spawn_failure_message_names_the_command() {
    let mut run = ChainRun::new(vec!["nonsense".to_string()]);
    run.next_stage().unwrap();
    run.record_outcome(StageOutcome::SpawnError {
        error: "No such file or directory".to_string(),
    });
    let failure = run.result().unwrap_err();
    assert_eq!(
        failure.message(),
        "Failed to run command 'nonsense': No such file or directory"
    );
}

#[test]
fn wait_failure_message_names_the_command() {
    let mut run = ChainRun::new(vec!["sleep 1".to_string()]);
    run.next_stage().unwrap();
    run.record_outcome(StageOutcome::WaitError {
        error: "interrupted".to_string(),
    });
    let failure = run.result().unwrap_err();
    assert_eq!(
        failure.message(),
        "Error waiting on command 'sleep 1': interrupted"
    );
}

#[test]
fn stdin_failure_messages() {
    assert_eq!(
        RunFailure::StdinOpenFailure.message(),
        "Failed to open stdin"
    );
    assert_eq!(
        RunFailure::StdinWriteFailure {
            error: "broken pipe".to_string()
        }
        .message(),
        "Failed to write to stdin: broken pipe"
    );
}

#[test]
fn run_chain_matches_commands_to_stages() {
    let commands = vec!["echo hello".to_string(), "wc -w".to_string()];
    let result = run_chain(commands, |c: String, i: String| -> StageOutcome {
        match c.as_str() {
            "echo hello" => {
                assert_eq!(i, "");
                exited(true, "hello\n", "")
            }
            "wc -w" => {
                assert_eq!(i, "hello\n");
                exited(true, "1\n", "")
            }
            other => panic!("unexpected stage command {}", other),
        }
    });
    assert_eq!(
        result,
        Ok(vec!["hello\n".to_string(), "1\n".to_string()])
    );
}

#[test]
fn stdin_open_error_ends_the_run() {
    let result = run_chain(
        vec!["cat".to_string()],
        |_c: String, _i: String| StageOutcome::StdinOpenError,
    );
    assert_eq!(result, Err(RunFailure::StdinOpenFailure));
}

#[test]
fn stage_exit_failure_message_is_the_stderr_text() {
    let failure = RunFailure::StageExitFailure {
        stderr: "sh: 1: nope: not found\n".to_string(),
    };
    assert_eq!(failure.message(), "sh: 1: nope: not found\n");
}
