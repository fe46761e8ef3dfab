use std::cell::RefCell;

use nausicaa::context::ResolvedPath;
use nausicaa::id::CallId;
use nausicaa::json::{parse, Json};
use nausicaa::process::{
    canonical_directory, conclude_command, join_path, register_workspace_tools, run_plainly,
    validate_relative, verify_write_target, BubblewrapRunner, CapturedPipe, LocalProcessRunner,
    PathProbe, ProcessError, ProcessOutput, ProcessRequest, ProcessRunner, ReadFileTool,
    ShellTool, Supervision, SystemPaths, Verdict, WriteFileTool, OUTPUT_CLEANUP_TIMEOUT_MS,
};
use nausicaa::protocol::ToolCall;
use nausicaa::tool::{ToolError, ToolRegistry};

fn path(shown: &str) -> ResolvedPath {
    ResolvedPath {
        shown: shown.to_owned(),
        components: shown.split('/').filter(|c| !c.is_empty()).map(str::to_owned).collect(),
    }
}

fn call(name: &str, arguments: &str) -> ToolCall {
    ToolCall::new(
        CallId::from_string("call".to_owned()),
        name.to_owned(),
        parse(arguments).unwrap(),
    )
}

fn present(shown: &str) -> PathProbe {
    PathProbe { present: true, resolved: Ok(path(shown)) }
}

fn absent() -> PathProbe {
    PathProbe { present: false, resolved: Err("no such file".to_owned()) }
}

#[test]
fn file_tools_reject_parent_traversal() {
    let tool = WriteFileTool::new(Ok(path("/w")), true).unwrap();
    let call = call("write_file", "{ \"path\": \"../escape\", \"content\": \"x\" }");
    assert!(tool.prepare(&call, &vec![present("/w")], &absent()).is_err());
}

struct RecordingRunner(RefCell<Vec<ProcessRequest>>);

fn output(stdout: &str) -> ProcessOutput {
    ProcessOutput {
        exit_code: Some(0),
        stdout: stdout.to_owned(),
        stderr: String::new(),
        timed_out: false,
        stdout_truncated: false,
        stderr_truncated: false,
    }
}

impl ProcessRunner for RecordingRunner {
    fn run(&self, request: &ProcessRequest) -> Result<ProcessOutput, ProcessError> {
        self.0.borrow_mut().push(request.clone());
        Ok(output("done"))
    }
}

#[test]
fn shell_executes_only_the_prepared_normalized_request() {
    let runner = RecordingRunner(RefCell::new(Vec::new()));
    let tool = ShellTool::new(Ok(path("/w")), true).unwrap();
    let call = call("shell", "{ \"command\": \"pwd\", \"timeout_ms\": 0 }");
    let prepared = tool.prepare(&call).unwrap();
    let request = tool.request(&prepared).unwrap();
    let answer = tool.outcome(run_plainly(&runner, &request, &|| false)).unwrap();

    {
        let requests = runner.0.borrow();
        assert_eq!(requests[0].command, "pwd");
        assert_eq!(requests[0].timeout_ms, 1);
        assert_eq!(requests[0].working_directory, "/w");
    }
    assert_eq!(answer.value.get("stdout").unwrap().as_text().unwrap(), "done");
    assert_eq!(
        run_plainly(&runner, &request, &|| true).unwrap_err(),
        ProcessError::Cancelled
    );
    assert_eq!(runner.0.borrow().len(), 1);
    // Cancelled while the command runs: the host only sees it afterwards.
    assert_eq!(
        run_plainly(&runner, &request, &|| runner.0.borrow().len() > 1).unwrap_err(),
        ProcessError::Cancelled
    );
    assert_eq!(runner.0.borrow().len(), 2);
}

#[test]
fn shell_timeouts_are_bounded() {
    let tool = ShellTool::new(Ok(path("/w")), true).unwrap().with_maximum_timeout_ms(50);
    let prepared =
        tool.prepare(&call("shell", "{ \"command\": \"x\", \"timeout_ms\": 99 }")).unwrap();
    assert_eq!(tool.request(&prepared).unwrap().timeout_ms, 50);
    assert!(tool.prepare(&call("shell", "{ \"command\": \" \" }")).is_err());
    assert!(tool.prepare(&call("shell", "{}")).is_err());
    assert!(matches!(
        tool.outcome(Err(ProcessError::Cancelled)),
        Err(ToolError::OutcomeUnknown(_)) | Err(ToolError::Cancelled)
    ));
    assert_eq!(tool.definition().name, "shell");
}

/// Plays a process: what it does at each look, with the milliseconds that have passed.
fn supervise(
    looks: &[(bool, bool, u64)],
    timeout_ms: u64,
    chunks: &[&[u8]],
    maximum: usize,
    close: bool,
) -> Result<ProcessOutput, ProcessError> {
    let mut watch = Supervision::new();
    let mut stdout = CapturedPipe::new(maximum);
    let mut stderr = CapturedPipe::new(maximum);
    for chunk in chunks {
        stdout.drain(&chunk.to_vec());
        stderr.drain(&chunk.to_vec());
    }
    if close {
        stdout.close();
        stderr.close();
    }
    let mut cleaning_since = None;
    for (exited, cancelled, elapsed) in looks {
        if watch.observe(*exited, *cancelled, *elapsed, timeout_ms) {
            cleaning_since = Some(*elapsed);
        }
        let cleaning = cleaning_since.map_or(0, |since| elapsed - since);
        match watch.decide(stdout.is_closed() && stderr.is_closed(), cleaning) {
            Verdict::Wait => {}
            Verdict::Done => return watch.output(Some(7), &stdout, &stderr),
            Verdict::Stuck => return Err(watch.stuck()),
        }
    }
    panic!("still running");
}

#[test]
fn ordinary_command_preserves_output_and_exit_status() {
    let output =
        supervise(&[(false, false, 1), (true, false, 2)], 1000, &[b"out"], 1024, true).unwrap();
    assert_eq!(output.stdout, "out");
    assert_eq!(output.stderr, "out");
    assert_eq!(output.exit_code, Some(7));
    assert!(!output.timed_out);
    assert!(!output.stdout_truncated && !output.stderr_truncated);
}

#[test]
fn continuous_output_is_capped_without_starving_timeout_or_stderr() {
    let chunks: Vec<&[u8]> = vec![b"1234567890"; 20];
    let output =
        supervise(&[(false, false, 100), (true, false, 101)], 100, &chunks, 32, true).unwrap();
    assert!(output.timed_out);
    assert_eq!(output.stdout.len(), 32);
    assert_eq!(output.stderr.len(), 32);
    assert!(output.stdout_truncated && output.stderr_truncated);
}

#[test]
fn cleanup_deadline_bounds_output_held_open_outside_the_process_group() {
    let output = supervise(
        &[(true, false, 1), (true, false, 2), (true, false, 1 + OUTPUT_CLEANUP_TIMEOUT_MS)],
        1000,
        &[b"retained"],
        1024,
        false,
    )
    .unwrap();
    assert_eq!(output.exit_code, Some(7));
    assert_eq!(output.stdout, "retained");
    assert!(output.stdout_truncated);
    assert!(!output.timed_out);
}

#[test]
fn cancellation_stops_quiet_and_noisy_commands_without_waiting_for_timeout() {
    for chunks in [&[][..], &[&b"noise"[..]][..]] {
        assert_eq!(
            supervise(
                &[(false, false, 1), (false, true, 100), (true, true, 101)],
                30_000,
                chunks,
                32,
                true
            ),
            Err(ProcessError::Cancelled)
        );
    }
    assert_eq!(conclude_command(true, Ok(output("x"))), Err(ProcessError::Cancelled));
    assert_eq!(conclude_command(false, Ok(output("x"))).unwrap().stdout, "x");
}

#[test]
fn processes_that_cannot_be_ended_are_reported() {
    let result = supervise(
        &[(false, false, 10), (false, false, 10 + OUTPUT_CLEANUP_TIMEOUT_MS)],
        10,
        &[],
        8,
        false,
    );
    assert_eq!(
        result,
        Err(ProcessError::Io("process did not exit within the cleanup deadline".to_owned()))
    );
}

#[test]
fn bytes_that_are_no_text_are_replaced() {
    let output = supervise(&[(true, false, 1)], 10, &[b"a\xffb"], 8, true).unwrap();
    assert_eq!(output.stdout, "a\u{fffd}b");
}

#[test]
fn local_commands_run_in_a_shell() {
    let runner = LocalProcessRunner::new(10);
    let request = ProcessRequest {
        command: "pwd".to_owned(),
        working_directory: "/w".to_owned(),
        timeout_ms: 1,
    };
    let command = runner.command(false, &request).unwrap();
    assert_eq!(command.directory.as_deref(), Some("/w"));
    assert_eq!(command.arguments.last().unwrap(), "pwd");
    assert_eq!(runner.command(true, &request).unwrap_err(), ProcessError::Cancelled);
    assert_eq!(runner.maximum_output_bytes(), 10);
}

#[test]
fn sandboxes_stay_in_their_workspace() {
    let runner = BubblewrapRunner::new(Ok(path("/w")), true, 10)
        .unwrap()
        .with_read_only_bind("/opt".to_owned());
    let request = |directory: &str| ProcessRequest {
        command: "pwd".to_owned(),
        working_directory: directory.to_owned(),
        timeout_ms: 1,
    };
    let system = SystemPaths { usr: true, bin: false, lib: false, lib64: false };
    let command = runner
        .command(
            false,
            &request("/w/src"),
            Ok(path("/w/src")),
            system,
            &vec![Ok("/opt".to_owned())],
        )
        .unwrap();
    assert_eq!(command.program, "bwrap");
    let joined = command.arguments.join(" ");
    assert!(joined.contains("--ro-bind /usr /usr"));
    assert!(!joined.contains("/lib64"));
    assert!(joined.contains("--ro-bind /opt /opt"));
    assert!(joined.contains("--bind /w /w"));
    assert!(joined.contains("--unshare-"));
    let outside = runner.command(
        false,
        &request("/etc"),
        Ok(path("/etc")),
        SystemPaths { usr: true, bin: false, lib: false, lib64: false },
        &vec![Ok("/opt".to_owned())],
    );
    assert!(matches!(outside, Err(ProcessError::Invalid(_))));
    assert!(BubblewrapRunner::new(Ok(path("/w")), false, 10).is_err());
    assert!(canonical_directory(Err("gone".to_owned()), true).is_err());
}

#[test]
fn sandboxes_share_the_network_only_when_told_to() {
    let command = |allow: bool| {
        BubblewrapRunner::new(Ok(path("/w")), true, 10)
            .unwrap()
            .with_binary("sandbox".to_owned())
            .with_network(allow)
            .command(
                false,
                &ProcessRequest {
                    command: "pwd".to_owned(),
                    working_directory: "/w".to_owned(),
                    timeout_ms: 1,
                },
                Ok(path("/w")),
                SystemPaths { usr: false, bin: false, lib: false, lib64: false },
                &Vec::new(),
            )
            .unwrap()
    };
    assert_eq!(
        command(false).arguments,
        [
            "--die-with-parent",
            "--new-session",
            "--unshare-all",
            "--proc",
            "/proc",
            "--dev",
            "/dev",
            "--tmpfs",
            "/tmp",
            "--bind",
            "/w",
            "/w",
            "--chdir",
            "/w",
            "/bin/sh",
            "-lc",
            "pwd",
        ]
    );
    assert_eq!(command(true).arguments[3], "--share-net");
    assert_eq!(command(true).program, "sandbox");
    assert!(command(true).clear_environment);
}

#[test]
fn relative_paths_stay_below() {
    for good in ["a", "a/b", "a/./b", "a//b", "a/"] {
        assert!(validate_relative(good).is_ok(), "{good}");
    }
    for bad in ["", "/a", "./a", "..", "a/../b", "../a"] {
        assert!(validate_relative(bad).is_err(), "{bad}");
    }
    assert_eq!(join_path(&path("/w"), "a/b").shown, "/w/a/b");
    assert_eq!(join_path(&path("/"), "a").shown, "/a");
}

#[test]
fn reads_are_prepared_and_bounded() {
    let tool = ReadFileTool::new(Ok(path("/w")), true).unwrap().with_maximum_bytes(4);
    let call = call("read_file", "{ \"path\": \"a.txt\" }");
    assert_eq!(tool.target(&call).unwrap().shown, "/w/a.txt");
    let prepared = tool.prepare(&call, Ok(path("/w/a.txt")), true).unwrap();
    let request = tool.request(&prepared, false).unwrap();
    assert_eq!(request.path, "/w/a.txt");
    assert_eq!(request.maximum_bytes, 4);
    let outcome = tool.outcome(&request, &b"abcd".to_vec()).unwrap();
    assert_eq!(outcome.value.get("content").unwrap().as_text().unwrap(), "abcd");
    assert!(tool.outcome(&request, &b"abcde".to_vec()).is_err());
    assert!(tool.outcome(&request, &b"\xff".to_vec()).is_err());
    assert!(tool.prepare(&call, Ok(path("/etc/passwd")), true).is_err());
    assert!(tool.prepare(&call, Ok(path("/w/a.txt")), false).is_err());
    assert!(tool.prepare(&call, Err("gone".to_owned()), true).is_err());
    assert_eq!(tool.request(&prepared, true).unwrap_err(), ToolError::Cancelled);
    assert_eq!(tool.definition().name, "read_file");
}

#[test]
fn writes_are_prepared_inside_the_workspace() {
    let tool = WriteFileTool::new(Ok(path("/w")), true).unwrap().with_maximum_bytes(4);
    let good = call("write_file", "{ \"path\": \"a/b\", \"content\": \"é!\" }");
    let prepared = tool.prepare(&good, &vec![present("/w")], &absent()).unwrap();
    let request = tool.request(&prepared, false).unwrap();
    assert_eq!((request.path.as_str(), request.content.as_str()), ("/w/a/b", "é!"));
    assert!(!request.create_directories);
    assert_eq!(
        tool.outcome(&request).value.get("bytes_written"),
        Some(&Json::Unsigned(3))
    );
    let large = call("write_file", "{ \"path\": \"a\", \"content\": \"abcde\" }");
    assert!(tool.prepare(&large, &vec![present("/w")], &absent()).is_err());
    assert!(tool.prepare(&good, &vec![present("/elsewhere")], &absent()).is_err());
    assert!(tool.prepare(&good, &vec![present("/w")], &present("/etc/passwd")).is_err());
    assert!(
        verify_write_target(&path("/w"), &path("/w/a"), &vec![present("/w")], &absent()).is_ok()
    );
}

#[test]
fn workspace_tools_are_registered_once() {
    let mut registry: ToolRegistry<u8> = ToolRegistry::new();
    let read = ReadFileTool::new(Ok(path("/w")), true).unwrap();
    let write = WriteFileTool::new(Ok(path("/w")), true).unwrap();
    let shell = ShellTool::new(Ok(path("/w")), true).unwrap();
    register_workspace_tools(&mut registry, (&read, 1), (&write, 2), (&shell, 3)).unwrap();
    assert_eq!(registry.names(), vec!["read_file", "shell", "write_file"]);
    assert!(
        register_workspace_tools(&mut registry, (&read, 1), (&write, 2), (&shell, 3)).is_err()
    );
}

#[test]
fn pipes_that_stay_open_are_given_up() {
    let watch = Supervision::new();
    assert_eq!(watch.await_pipes(true, 1000), Ok(true));
    assert_eq!(watch.await_pipes(false, 249), Ok(false));
    assert_eq!(
        watch.await_pipes(false, 250),
        Err(ProcessError::Io(
            "output pipes did not close within the cleanup deadline".to_owned()
        ))
    );
}
