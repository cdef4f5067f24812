use llmtmplog::cli::{exited_line, help_text, parse_args, running_line, Launch};
use llmtmplog::pipe::{pipe_reader, PipeAction, PipeEvent};
use llmtmplog::run::{Run, RunEvent, Start};
use llmtmplog::signals::{
    forward_signal, install_signal_forwarders, kill_process_group, Delivery, Signal,
};

const LOG: &str = "/home/you/.cache/llmtmplog/20260511-172309-737498212-91313.log";

struct Record {
    log: Vec<u8>,
    stdout: String,
    stderr: String,
    code: Option<i32>,
}

fn strings(args: &[&str]) -> Vec<String> {
    args.iter().map(|arg| arg.to_string()).collect()
}

fn play(args: &[&str], events: Vec<RunEvent>) -> Record {
    let args = strings(args);
    let mut record =
        Record { log: Vec::new(), stdout: String::new(), stderr: String::new(), code: None };
    match Run::start(&args) {
        Start::Help { exit_code } => {
            record.stderr = help_text("/home/you/.cache/llmtmplog");
            record.code = Some(exit_code);
        }
        Start::Run { mut run, announcement, .. } => {
            record.stderr = format!("{announcement}\n");
            for event in events {
                let response = run.run(event);
                record.log.extend(response.log);
                for text in response.stdout {
                    record.stdout.push_str(&text);
                }
                for line in response.stderr {
                    record.stderr.push_str(&format!("{line}\n"));
                }
                record.code = response.exit_code;
            }
        }
    }
    record
}

fn command(args: &[&str], chunks: &[&[u8]], code: Option<i32>) -> Record {
    let mut events = vec![RunEvent::LogReady(LOG.to_string()), RunEvent::Spawned];
    for chunk in chunks {
        events.push(RunEvent::Output(chunk.to_vec()));
    }
    events.push(RunEvent::Exited(code));
    play(args, events)
}

fn seq(n: usize) -> Vec<u8> {
    let mut bytes = Vec::new();
    for i in 1..n + 1 {
        bytes.extend_from_slice(format!("{i}\n").as_bytes());
    }
    bytes
}

fn extract_log_path(stderr: &str) -> String {
    for line in stderr.lines() {
        if let Some(rest) = line.strip_prefix("llmtmplog: stdout & stderr redirected to ") {
            return rest.to_string();
        }
    }
    panic!("could not find log path in stderr:\n{stderr}");
}

fn extract_exit_code(stderr: &str) -> i32 {
    for line in stderr.lines() {
        if let Some(rest) = line.strip_prefix("llmtmplog: EXIT_CODE=") {
            return rest.parse().unwrap();
        }
    }
    panic!("could not find EXIT_CODE in stderr:\n{stderr}");
}

#[test]
fn no_args_prints_help() {
    let output = play(&[], Vec::new());
    assert_ne!(output.code, Some(0));
    let stderr = output.stderr;
    assert!(stderr.contains("Usage:"), "expected help text, got:\n{stderr}");
}

#[test]
fn basic_stdout() {
    let output = command(&["echo", "hello world"], &[b"hello world\n"], Some(0));
    assert_eq!(output.code, Some(0));
    assert!(output.stderr.contains("llmtmplog: running `echo`"));
    assert_eq!(extract_log_path(&output.stderr), LOG);
    assert_eq!(output.log, b"hello world\n");
    assert_eq!(extract_exit_code(&output.stderr), 0);
    assert!(output.stdout.is_empty(), "stdout should be empty without --head/--tail");
}

#[test]
fn stderr_captured() {
    let output =
        command(&["sh", "-c", "echo this-is-stderr >&2"], &[b"this-is-stderr\n"], Some(0));
    assert_eq!(output.code, Some(0));
    assert_eq!(extract_log_path(&output.stderr), LOG);
    let log_contents = String::from_utf8(output.log).unwrap();
    assert!(
        log_contents.contains("this-is-stderr"),
        "log should contain stderr output, got:\n{log_contents}"
    );
}

#[test]
fn nonzero_exit_code() {
    let output = command(&["false"], &[], Some(1));
    assert_eq!(extract_exit_code(&output.stderr), 1);
    assert_eq!(output.code, Some(1));
}

#[test]
fn head_flag() {
    let output = command(&["--head", "seq", "100"], &[&seq(100)], Some(0));
    assert_eq!(output.code, Some(0));
    assert_eq!(extract_log_path(&output.stderr), LOG);
    let stdout_lines: Vec<&str> = output.stdout.lines().collect();
    assert_eq!(stdout_lines.len(), 50, "expected 50 head lines, got {}", stdout_lines.len());
    assert_eq!(stdout_lines[0], "1");
    assert_eq!(stdout_lines[49], "50");
    let log = String::from_utf8(output.log).unwrap();
    let log_lines: Vec<&str> = log.lines().collect();
    assert_eq!(log_lines.len(), 100, "log should have all 100 lines");
    assert_eq!(log_lines[99], "100");
}

#[test]
fn tail_flag() {
    let output = command(&["--tail", "seq", "100"], &[&seq(100)], Some(0));
    assert_eq!(output.code, Some(0));
    assert_eq!(extract_log_path(&output.stderr), LOG);
    let stdout_lines: Vec<&str> = output.stdout.lines().collect();
    assert_eq!(stdout_lines.len(), 50, "expected 50 tail lines, got {}", stdout_lines.len());
    assert_eq!(stdout_lines[0], "51");
    assert_eq!(stdout_lines[49], "100");
    assert_eq!(output.log, seq(100));
}

#[test]
fn head_and_tail_flags() {
    let output = command(&["--head", "--tail", "seq", "200"], &[&seq(200)], Some(0));
    assert_eq!(output.code, Some(0));
    assert_eq!(extract_log_path(&output.stderr), LOG);
    let stdout_lines: Vec<&str> = output.stdout.lines().collect();
    assert_eq!(
        stdout_lines.len(),
        100,
        "expected 100 lines (50 head + 50 tail), got {}",
        stdout_lines.len()
    );
    assert_eq!(stdout_lines[0], "1");
    assert_eq!(stdout_lines[49], "50");
    assert_eq!(stdout_lines[50], "151");
    assert_eq!(stdout_lines[99], "200");
    assert_eq!(output.log, seq(200));
}

#[test]
fn stdout_and_stderr_interleaved() {
    let output = command(
        &["sh", "-c", "echo out1; echo err1 >&2; echo out2"],
        &[b"out1\n", b"err1\n", b"out2\n"],
        Some(0),
    );
    assert_eq!(output.code, Some(0));
    assert_eq!(extract_log_path(&output.stderr), LOG);
    let log_contents = String::from_utf8(output.log).unwrap();
    assert_eq!(log_contents, "out1\nerr1\nout2\n");
}

#[test]
fn command_ended_by_a_signal_gives_128() {
    let output = command(&["--tail", "sleep"], &[b"partial"], None);
    assert_eq!(output.code, Some(128));
    assert_eq!(extract_exit_code(&output.stderr), 128);
    assert_eq!(output.stdout, "partial\n");
    assert_eq!(output.log, b"partial");
}

#[test]
fn command_that_cannot_start_gives_127() {
    let events = vec![
        RunEvent::LogReady(LOG.to_string()),
        RunEvent::SpawnFailed("No such file or directory (os error 2)".to_string()),
    ];
    let output = play(&["--head", "nope"], events);
    assert_eq!(output.code, Some(127));
    assert!(output.log.is_empty());
    assert!(output.stdout.is_empty());
    assert_eq!(
        output.stderr,
        format!(
            "llmtmplog: running `nope`\n\
             llmtmplog: stdout & stderr redirected to {LOG}\n\
             llmtmplog: failed to spawn `nope`: No such file or directory (os error 2)\n"
        )
    );
}

#[test]
fn stderr_of_a_whole_run() {
    let output = command(&["cargo", "check"], &[b"ok\n"], Some(101));
    assert_eq!(
        output.stderr,
        format!(
            "llmtmplog: running `cargo`\n\
             llmtmplog: stdout & stderr redirected to {LOG}\n\
             llmtmplog: EXIT_CODE=101\n"
        )
    );
}

#[test]
fn four_forms_of_the_command_line() {
    let parsed = |args: &[&str]| parse_args(&strings(args));
    let run = |show_head, show_tail, start| Launch::Command { show_head, show_tail, start };
    assert_eq!(parsed(&["cargo", "check"]), run(false, false, 0));
    assert_eq!(parsed(&["--head", "cargo", "check"]), run(true, false, 1));
    assert_eq!(parsed(&["--tail", "cargo", "check"]), run(false, true, 1));
    assert_eq!(parsed(&["--head", "--tail", "cargo", "check"]), run(true, true, 2));
}

#[test]
fn flag_order_is_strict() {
    let parsed = |args: &[&str]| parse_args(&strings(args));
    let run = |show_head, show_tail, start| Launch::Command { show_head, show_tail, start };
    assert_eq!(parsed(&["--tail", "--head", "cargo"]), run(false, true, 1));
    assert_eq!(parsed(&["cargo", "--head"]), run(false, false, 0));
    assert_eq!(parsed(&["--head", "-h"]), run(true, false, 1));
    assert_eq!(parsed(&["--HEAD"]), run(false, false, 0));
}

#[test]
fn help_on_the_command_line() {
    let parsed = |args: &[&str]| parse_args(&strings(args));
    assert_eq!(parsed(&[]), Launch::Help { exit_code: 1 });
    assert_eq!(parsed(&["--head"]), Launch::Help { exit_code: 1 });
    assert_eq!(parsed(&["--tail"]), Launch::Help { exit_code: 1 });
    assert_eq!(parsed(&["--head", "--tail"]), Launch::Help { exit_code: 1 });
    assert_eq!(parsed(&["-h"]), Launch::Help { exit_code: 0 });
    assert_eq!(parsed(&["--help", "cargo"]), Launch::Help { exit_code: 0 });
}

#[test]
fn start_says_where_the_command_begins() {
    match Run::start(&strings(&["--head", "--tail", "npm", "run"])) {
        Start::Run { command, announcement, .. } => {
            assert_eq!(command, 2);
            assert_eq!(announcement, "llmtmplog: running `npm`");
        }
        Start::Help { .. } => panic!("a command was given"),
    }
}

#[test]
fn texts_for_standard_error() {
    assert_eq!(running_line("cargo"), "llmtmplog: running `cargo`");
    assert_eq!(exited_line(-1), "llmtmplog: EXIT_CODE=-1");
    assert_eq!(
        help_text("/x"),
        "Usage: llmtmplog [--head] [--tail] <command> [args...]\n\
         \n\
         Runs <command> and redirects stdout+stderr to a unique log file\n\
         in /x/.\n\
         \n\
         Options:\n\
         \x20 --head  Print the first 50 lines to stdout (streamed)\n\
         \x20 --tail  Print the last 50 lines to stdout (after command exits)\n\
         \n\
         The log file path is printed immediately so you can tail -f it.\n\
         llmtmplog exits with the same exit code as <command>.\n"
    );
}

#[test]
fn reader_sends_what_it_reads() {
    let buf = b"abcdef";
    match pipe_reader(PipeEvent::Read(4), buf) {
        PipeAction::Send(bytes) => assert_eq!(bytes, b"abcd"),
        action => panic!("unexpected {action:?}"),
    }
    assert!(matches!(pipe_reader(PipeEvent::Sent, buf), PipeAction::Read));
    assert!(matches!(pipe_reader(PipeEvent::Interrupted, buf), PipeAction::Read));
    assert!(matches!(pipe_reader(PipeEvent::Read(0), buf), PipeAction::Stop));
    assert!(matches!(pipe_reader(PipeEvent::Failed, buf), PipeAction::Stop));
    assert!(matches!(pipe_reader(PipeEvent::ReceiverGone, buf), PipeAction::Stop));
}

#[test]
fn interrupted_reads_lose_nothing() {
    let buf = b"abcdef";
    let events = [
        PipeEvent::Read(3),
        PipeEvent::Sent,
        PipeEvent::Interrupted,
        PipeEvent::Interrupted,
        PipeEvent::Read(6),
        PipeEvent::Sent,
        PipeEvent::Read(0),
    ];
    let mut sent = Vec::new();
    let mut stopped = 0;
    for event in events {
        match pipe_reader(event, buf) {
            PipeAction::Send(bytes) => sent.extend(bytes),
            PipeAction::Stop => stopped += 1,
            PipeAction::Read => {}
        }
    }
    assert_eq!(sent, b"abcabcdef");
    assert_eq!(stopped, 1);
}

#[test]
fn signals_go_to_the_group_of_the_command() {
    assert_eq!(
        forward_signal(91313, Signal::Interrupt),
        Some(Delivery { target: -91313, signal: Signal::Interrupt })
    );
    assert_eq!(
        kill_process_group(i32::MAX),
        Some(Delivery { target: -i32::MAX, signal: Signal::Kill })
    );
    assert_eq!(forward_signal(0, Signal::Terminate), None);
    assert_eq!(forward_signal(-5, Signal::Quit), None);
    assert_eq!(kill_process_group(0), None);
    assert_eq!(kill_process_group(i32::MIN), None);
    assert_eq!(
        install_signal_forwarders(),
        vec![Signal::Interrupt, Signal::Terminate, Signal::Hangup, Signal::Quit]
    );
}
