//! What the tools of a workspace do, and what they tell of it.

use vstd::prelude::*;
use vstd::utf8::*;

use crate::json::{member, JsonView};
use crate::process::{
    ancestor_refusal, binds_of, directory_of, joined_path, last_arguments, observed, output_of,
    prepared_read, prepared_shell, prepared_write, ran_plainly, read_file_definition,
    read_outcome, read_request_of, registers, relative_path, request_of, resolved_up_to,
    run_plainly, sandboxed, segments_of, shell_definition, shell_outcome, system_bind,
    text_argument, verdict_of, write_file_definition, write_refusal, write_request_of,
    BubblewrapView, CommandLine, LocalProcessRunner, PathProbeView, PipeView, ProcessError,
    ProcessErrorView, ProcessOutput, ProcessOutputView, ProcessRequest, ProcessRequestView,
    ProcessRunner, Supervision, SystemPaths, Verdict, WriteFileTool, WriteRequest,
};
use crate::context::{lies_in, PathView};
use crate::protocol::{EffectKind, RetrySafety, ToolCallView};
use crate::text::{blank, join_of, occurs, stands_at};
use crate::tool::{ToolDefinitionView, ToolErrorView, ToolOutput};
use crate::utf8::lossy_text;
use crate::datum::res_view;

verus! {

// ---------------------------------------------------------------------------
// Shell commands
// ---------------------------------------------------------------------------

/// The value of a finished command tells what the process left behind: its exit code as a
/// number, or null if it has none, both outputs, whether its time ran out, and whether an
/// output is cut off.
pub proof fn law_shell_values_tell_the_outcome(output: ProcessOutputView)
    ensures
        shell_outcome(Ok(output)) matches Ok(value) && {
            &&& member(value, "exit_code"@) == Some(
                match output.exit_code {
                    Some(code) => JsonView::Integer(code as int),
                    None => JsonView::Null,
                },
            )
            &&& member(value, "stdout"@) == Some(JsonView::Text(output.stdout))
            &&& member(value, "stderr"@) == Some(JsonView::Text(output.stderr))
            &&& member(value, "timed_out"@) == Some(JsonView::Bool(output.timed_out))
            &&& member(value, "stdout_truncated"@) == Some(
                JsonView::Bool(output.stdout_truncated),
            )
            &&& member(value, "stderr_truncated"@) == Some(
                JsonView::Bool(output.stderr_truncated),
            )
        },
{
    reveal_strlit("exit_code");
    reveal_strlit("stdout");
    reveal_strlit("stderr");
    reveal_strlit("timed_out");
    reveal_strlit("stdout_truncated");
    reveal_strlit("stderr_truncated");
    assert("exit_code"@.len() == 9 && "stdout"@.len() == 6 && "stderr"@.len() == 6
        && "timed_out"@.len() == 9 && "stdout_truncated"@.len() == 16
        && "stderr_truncated"@.len() == 16);
    assert("exit_code"@[0] != "timed_out"@[0]);
    assert("stdout"@[3] != "stderr"@[3]);
    assert("stdout_truncated"@[3] != "stderr_truncated"@[3]);
}

/// The values of two processes that ended in different ways differ: by their exit codes, by
/// an output, or by whether they ran out of time or output was cut off.
pub proof fn law_different_outcomes_have_different_values(
    one: ProcessOutputView,
    other: ProcessOutputView,
)
    requires
        one != other,
    ensures
        shell_outcome(Ok(one)) != shell_outcome(Ok(other)),
{
    law_shell_values_tell_the_outcome(one);
    law_shell_values_tell_the_outcome(other);
    if shell_outcome(Ok(one)) == shell_outcome(Ok(other)) {
        assert(one.exit_code == other.exit_code);
        assert(one =~= other);
    }
}

/// A command that failed has no value. Its outcome is unknown where it was cancelled, and
/// only there.
pub proof fn law_failed_commands_have_no_value(error: ProcessErrorView)
    ensures
        shell_outcome(Err(error)) matches Err(told) && (told is OutcomeUnknown <==> error
            is Cancelled) && (told is Execution <==> !(error is Cancelled)),
{
}

/// A shell command is prepared exactly where it is a text that is not blank. The action has
/// the id of the call, writes in the workspace, is not safe to repeat, and asks for the
/// command in the workspace. Its time limit is the one asked for, or half a minute, brought
/// between one millisecond and the maximum.
pub proof fn law_shell_commands_are_prepared_as_asked(
    call: ToolCallView,
    workspace: PathView,
    maximum: u64,
)
    requires
        maximum >= 1,
    ensures
        prepared_shell(call, workspace, maximum) is Ok <==> (member(
            call.arguments,
            "command"@,
        ) matches Some(JsonView::Text(command)) && !blank(command)),
        prepared_shell(call, workspace, maximum) matches Ok(prepared) ==> {
            let asked = match member(call.arguments, "timeout_ms"@) {
                Some(JsonView::Integer(number)) => if 0 <= number <= u64::MAX {
                    number
                } else {
                    30_000
                },
                _ => 30_000,
            };
            &&& prepared.call_id == call.id
            &&& prepared.action.tool_name == "shell"@
            &&& prepared.action.effect == EffectKind::WorkspaceWrite
            &&& prepared.action.retry_safety == RetrySafety::Unsafe
            &&& prepared.action.scope == Some(workspace.shown)
            &&& request_of(prepared.action.arguments) matches Some(request)
            &&& member(call.arguments, "command"@) == Some(JsonView::Text(request.command))
            &&& request.working_directory == workspace.shown
            &&& (1 <= asked <= maximum ==> request.timeout_ms == asked)
            &&& (asked < 1 ==> request.timeout_ms == 1)
            &&& (asked > maximum ==> request.timeout_ms == maximum)
        },
{
    reveal_strlit("command");
    reveal_strlit("working_directory");
    reveal_strlit("timeout_ms");
    assert("command"@.len() == 7 && "working_directory"@.len() == 17 && "timeout_ms"@.len() == 10);
}

/// The local runner runs the command in a shell, in the working directory of the request. A
/// cancelled request runs nothing.
pub proof fn law_local_commands_run_in_their_directory(
    runner: LocalProcessRunner,
    cancelled: bool,
    request: ProcessRequest,
    command: Result<CommandLine, ProcessError>,
)
    requires
        call_ensures(LocalProcessRunner::command, (&runner, cancelled, &request), command),
    ensures
        cancelled <==> command is Err,
        command matches Err(error) ==> error@ is Cancelled,
        command matches Ok(line) ==> line@.program == "/bin/sh"@ && line@.arguments.len() == 2
            && line@.arguments[0] == "-lc"@ && line@.arguments[1] == request.command@
            && line@.directory == Some(request.working_directory@) && !line@.clear_environment,
{
}

/// A cancelled command has no output, whatever the process left behind; any other has what it
/// left.
pub proof fn law_cancelled_commands_have_no_output(
    answer: Result<ProcessOutputView, ProcessErrorView>,
    watch: Supervision,
    exit_code: Option<i32>,
    stdout: PipeView,
    stderr: PipeView,
)
    ensures
        ran_plainly(answer, true) == Err::<ProcessOutputView, ProcessErrorView>(
            ProcessErrorView::Cancelled,
        ),
        ran_plainly(answer, false) == answer,
        watch.cancelled ==> output_of(watch, exit_code, stdout, stderr) == Err::<
            ProcessOutputView,
            ProcessErrorView,
        >(ProcessErrorView::Cancelled),
        !watch.cancelled ==> (output_of(watch, exit_code, stdout, stderr) matches Ok(output) && {
            &&& output.exit_code == exit_code
            &&& output.stdout == lossy_text(stdout.retained)
            &&& output.stderr == lossy_text(stderr.retained)
            &&& output.timed_out == watch.timed_out
            &&& (!output.stdout_truncated <==> stdout.eof && !stdout.truncated)
            &&& (!output.stderr_truncated <==> stderr.eof && !stderr.truncated)
        }),
{
}

/// Cleaning up begins as soon as the process has exited, was cancelled or is out of time, and
/// not before. Only a process that has neither exited nor was cancelled ran out of time.
pub proof fn law_cleanup_begins_when_it_must(
    watch: Supervision,
    exited: bool,
    cancelled: bool,
    elapsed_ms: u64,
    timeout_ms: u64,
)
    requires
        !watch.cleaning,
        !watch.timed_out,
        !watch.cancelled,
    ensures
        ({
            let after = observed(watch, exited, cancelled, elapsed_ms, timeout_ms);
            let gone = watch.exited || exited;
            let late = elapsed_ms >= timeout_ms && elapsed_ms >= 1;
            &&& after.exited == gone
            &&& after.cleaning == (gone || cancelled || late)
            &&& after.cancelled == cancelled
            &&& after.timed_out == (late && !gone && !cancelled)
        }),
{
}

/// A process is done only once it has exited, at once where its pipes are closed and else
/// after a quarter of a second; it is given up only while it is cleaned up.
pub proof fn law_processes_are_done_once_they_exited(
    watch: Supervision,
    closed_pipes: bool,
    cleaning_ms: u64,
)
    ensures
        verdict_of(watch, closed_pipes, cleaning_ms) == Verdict::Done <==> watch.exited && (
        closed_pipes || (watch.cleaning && cleaning_ms >= 250)),
        verdict_of(watch, closed_pipes, cleaning_ms) == Verdict::Stuck <==> !watch.exited
            && watch.cleaning && cleaning_ms >= 250,
{
}

// ---------------------------------------------------------------------------
// The sandbox
// ---------------------------------------------------------------------------

/// Whether three arguments bind a path to itself, read-only.
spec fn bound_at(arguments: Seq<Seq<char>>, at: int, path: Seq<char>) -> bool {
    &&& arguments[at] == "--ro-bind"@
    &&& arguments[at + 1] == path
    &&& arguments[at + 2] == path
}

proof fn lemma_binds(paths: Seq<Seq<char>>)
    ensures
        binds_of(paths).len() == 3 * paths.len(),
        forall|i: int|
            0 <= i < paths.len() ==> bound_at(binds_of(paths), 3 * i, #[trigger] paths[i]),
    decreases paths.len(),
{
    if paths.len() > 0 {
        let front = paths.drop_last();
        lemma_binds(front);
        assert forall|i: int| 0 <= i < paths.len() implies bound_at(
            binds_of(paths),
            3 * i,
            #[trigger] paths[i],
        ) by {
            if i < front.len() {
                assert(front[i] == paths[i]);
                assert(bound_at(binds_of(front), 3 * i, front[i]));
            }
        }
    }
}

proof fn lemma_resolved(paths: Seq<Result<Seq<char>, Seq<char>>>, count: int)
    requires
        0 <= count <= paths.len(),
    ensures
        resolved_up_to(paths, count) is Ok <==> forall|i: int|
            0 <= i < count ==> (#[trigger] paths[i]) is Ok,
        resolved_up_to(paths, count) matches Ok(found) ==> found.len() == count && forall|i: int|
            0 <= i < count ==> paths[i] == Ok::<Seq<char>, Seq<char>>(#[trigger] found[i]),
    decreases count,
{
    if count > 0 {
        lemma_resolved(paths, count - 1);
    }
}

/// A sandboxed command runs in a new session without any of the host's namespaces and
/// environment, and with the network only where it is allowed. The workspace is the one
/// writable bind; every other path is bound read-only, and each configured one is. The
/// command runs in a shell, in a directory of the workspace.
pub proof fn law_sandboxed_commands_are_confined(
    runner: BubblewrapView,
    request: ProcessRequestView,
    directory: Result<PathView, Seq<char>>,
    system: SystemPaths,
    binds: Seq<Result<Seq<char>, Seq<char>>>,
)
    requires
        sandboxed(runner, false, request, directory, system, binds) is Ok,
    ensures
        ({
            let line = sandboxed(runner, false, request, directory, system, binds)->Ok_0;
            let arguments = line.arguments;
            let end = arguments.len() as int;
            let system_binds: int = (if system.usr {
                3int
            } else {
                0
            }) + (if system.bin {
                3int
            } else {
                0
            }) + (if system.lib {
                3int
            } else {
                0
            }) + (if system.lib64 {
                3int
            } else {
                0
            });
            let first: int = 3 + (if runner.allow_network {
                1int
            } else {
                0
            }) + system_binds;
            &&& line.program == runner.binary
            &&& line.directory is None
            &&& line.clear_environment
            &&& arguments.take(3) == seq!["--die-with-parent"@, "--new-session"@, "--unshare-all"@]
            &&& (runner.allow_network ==> arguments[3] == "--share-net"@)
            &&& end == first + 3 * binds.len() + 14
            &&& forall|i: int|
                0 <= i < binds.len() ==> {
                    &&& arguments[first + 3 * i] == "--ro-bind"@
                    &&& (#[trigger] binds[i]) == Ok::<Seq<char>, Seq<char>>(
                        arguments[first + 3 * i + 1],
                    )
                    &&& arguments[first + 3 * i + 2] == arguments[first + 3 * i + 1]
                }
            &&& arguments.subrange(end - 8, end - 5) == seq![
                "--bind"@,
                runner.workspace.shown,
                runner.workspace.shown,
            ]
            &&& directory matches Ok(place)
            &&& lies_in(place.components, runner.workspace.components)
            &&& arguments.subrange(end - 5, end) == seq![
                "--chdir"@,
                place.shown,
                "/bin/sh"@,
                "-lc"@,
                request.command,
            ]
        }),
{
    let line = sandboxed(runner, false, request, directory, system, binds)->Ok_0;
    let arguments = line.arguments;
    let end = arguments.len() as int;
    let found = resolved_up_to(binds, binds.len() as int)->Ok_0;
    lemma_resolved(binds, binds.len() as int);
    lemma_binds(found);
    let place = directory->Ok_0;
    let tail = last_arguments(runner.workspace, place.shown, request.command);
    let head = seq!["--die-with-parent"@, "--new-session"@, "--unshare-all"@] + (
    if runner.allow_network {
        seq!["--share-net"@]
    } else {
        Seq::empty()
    }) + system_bind(system.usr, "/usr"@) + system_bind(system.bin, "/bin"@) + system_bind(
        system.lib,
        "/lib"@,
    ) + system_bind(system.lib64, "/lib64"@);
    lemma_head(runner.allow_network, system);
    lemma_placed(head, binds_of(found), tail);
    assert forall|i: int| 0 <= i < binds.len() implies {
        &&& arguments[head.len() + 3 * i] == "--ro-bind"@
        &&& (#[trigger] binds[i]) == Ok::<Seq<char>, Seq<char>>(arguments[head.len() + 3 * i + 1])
        &&& arguments[head.len() + 3 * i + 2] == arguments[head.len() + 3 * i + 1]
    } by {
        assert(binds[i] == Ok::<Seq<char>, Seq<char>>(found[i]));
        assert(bound_at(binds_of(found), 3 * i, found[i]));
    }
    assert(tail.subrange(6, 9) =~= seq![
        "--bind"@,
        runner.workspace.shown,
        runner.workspace.shown,
    ]);
    assert(tail.subrange(9, 14) =~= seq![
        "--chdir"@,
        place.shown,
        "/bin/sh"@,
        "-lc"@,
        request.command,
    ]);
}

proof fn lemma_head(network: bool, system: SystemPaths)
    ensures
        ({
            let head = seq!["--die-with-parent"@, "--new-session"@, "--unshare-all"@] + (
            if network {
                seq!["--share-net"@]
            } else {
                Seq::empty()
            }) + system_bind(system.usr, "/usr"@) + system_bind(system.bin, "/bin"@) + system_bind(
                system.lib,
                "/lib"@,
            ) + system_bind(system.lib64, "/lib64"@);
            &&& head.take(3) == seq!["--die-with-parent"@, "--new-session"@, "--unshare-all"@]
            &&& (network ==> head[3] == "--share-net"@)
            &&& head.len() == 3 + (if network {
                1int
            } else {
                0
            }) + (if system.usr {
                3int
            } else {
                0
            }) + (if system.bin {
                3int
            } else {
                0
            }) + (if system.lib {
                3int
            } else {
                0
            }) + (if system.lib64 {
                3int
            } else {
                0
            })
        }),
{
    let head = seq!["--die-with-parent"@, "--new-session"@, "--unshare-all"@] + (if network {
        seq!["--share-net"@]
    } else {
        Seq::empty()
    }) + system_bind(system.usr, "/usr"@) + system_bind(system.bin, "/bin"@) + system_bind(
        system.lib,
        "/lib"@,
    ) + system_bind(system.lib64, "/lib64"@);
    assert(head.take(3) =~= seq!["--die-with-parent"@, "--new-session"@, "--unshare-all"@]);
}

proof fn lemma_placed(head: Seq<Seq<char>>, middle: Seq<Seq<char>>, tail: Seq<Seq<char>>)
    requires
        head.len() >= 3,
        tail.len() == 14,
    ensures
        ({
            let all = head + middle + tail;
            let end = all.len() as int;
            &&& end == head.len() + middle.len() + 14
            &&& all.take(3) == head.take(3)
            &&& (head.len() > 3 ==> all[3] == head[3])
            &&& forall|i: int| 0 <= i < middle.len() ==> all[head.len() + i] == #[trigger] middle[i]
            &&& all.subrange(end - 8, end - 5) == tail.subrange(6, 9)
            &&& all.subrange(end - 5, end) == tail.subrange(9, 14)
        }),
{
    let all = head + middle + tail;
    let end = all.len() as int;
    assert(all.take(3) =~= head.take(3));
    assert(all.subrange(end - 8, end - 5) =~= tail.subrange(6, 9));
    assert(all.subrange(end - 5, end) =~= tail.subrange(9, 14));
}

/// A request is sandboxed unless it was cancelled, its directory or a bind cannot be
/// resolved, or its directory lies outside the workspace.
pub proof fn law_sandbox_refuses_directories_outside(
    runner: BubblewrapView,
    cancelled: bool,
    request: ProcessRequestView,
    directory: Result<PathView, Seq<char>>,
    system: SystemPaths,
    binds: Seq<Result<Seq<char>, Seq<char>>>,
)
    ensures
        sandboxed(runner, cancelled, request, directory, system, binds) is Ok <==> {
            &&& !cancelled
            &&& directory matches Ok(place)
            &&& lies_in(place.components, runner.workspace.components)
            &&& forall|i: int| 0 <= i < binds.len() ==> (#[trigger] binds[i]) is Ok
        },
        sandboxed(runner, cancelled, request, directory, system, binds) == Err::<
            crate::process::CommandLineView,
            ProcessErrorView,
        >(ProcessErrorView::Cancelled) <==> cancelled,
{
    lemma_resolved(binds, binds.len() as int);
}

// ---------------------------------------------------------------------------
// Files
// ---------------------------------------------------------------------------

proof fn lemma_segments(path: Seq<char>)
    ensures
        segments_of(path).len() > 0,
        join_of(segments_of(path), "/"@) == path,
        forall|i: int|
            0 <= i < segments_of(path).len() ==> !(#[trigger] segments_of(path)[i]).contains('/'),
    decreases path.len(),
{
    reveal_strlit("/");
    if path.len() == 0 {
        assert(segments_of(path) =~= seq![Seq::<char>::empty()]);
        assert(join_of(segments_of(path), "/"@) =~= path);
    } else {
        let front = path.drop_last();
        lemma_segments(front);
        let earlier = segments_of(front);
        let now = segments_of(path);
        assert(path =~= front.push(path.last()));
        if path.last() == '/' {
            assert(now.drop_last() =~= earlier);
            assert(join_of(now, "/"@) =~= front + "/"@ + Seq::<char>::empty());
            assert(join_of(now, "/"@) =~= path);
            assert forall|i: int| 0 <= i < now.len() implies !(#[trigger] now[i]).contains('/') by {
                if i < earlier.len() {
                    assert(now[i] == earlier[i]);
                }
            }
        } else {
            assert(now.drop_last() =~= earlier.drop_last());
            let grown = earlier.last().push(path.last());
            assert(now.last() == grown);
            if earlier.len() == 1 {
                assert(join_of(now, "/"@) =~= path);
            } else {
                assert(join_of(now, "/"@) =~= join_of(earlier.drop_last(), "/"@) + "/"@ + grown);
                assert(join_of(now, "/"@) =~= path);
            }
            assert forall|i: int| 0 <= i < now.len() implies !(#[trigger] now[i]).contains('/') by {
                if i < earlier.len() - 1 {
                    assert(now[i] == earlier[i]);
                } else {
                    assert(!earlier[earlier.len() - 1].contains('/'));
                    if grown.contains('/') {
                        let k = choose|k: int| 0 <= k < grown.len() && grown[k] == '/';
                        assert(earlier.last()[k] == '/');
                    }
                }
            }
        }
    }
}

/// The segments of a path, with slashes between them, are the path, and none holds a slash.
pub proof fn law_segments_make_up_the_path(path: Seq<char>)
    ensures
        join_of(segments_of(path), "/"@) == path,
        forall|i: int|
            0 <= i < segments_of(path).len() ==> !(#[trigger] segments_of(path)[i]).contains('/'),
{
    lemma_segments(path);
}

/// A path in a directory is shown as the directory, one slash and the path.
pub proof fn law_joined_paths_are_shown_whole(directory: PathView, path: Seq<char>)
    requires
        directory.shown.len() > 0,
    ensures
        directory.shown.last() != '/' ==> joined_path(directory, path).shown == directory.shown
            + "/"@ + path,
        directory.shown.last() == '/' ==> joined_path(directory, path).shown == directory.shown
            + path,
        directory.components.is_prefix_of(joined_path(directory, path).components),
{
}

/// A read is prepared exactly where the path is relative and leads to a file of the
/// workspace. The action has the id of the call, changes nothing, is safe to repeat, and
/// asks for that file up to the maximum.
pub proof fn law_reads_are_prepared_as_asked(
    call: ToolCallView,
    workspace: PathView,
    maximum: usize,
    resolved: Result<PathView, Seq<char>>,
    is_file: bool,
)
    ensures
        prepared_read(call, workspace, maximum, resolved, is_file) is Ok <==> {
            &&& member(call.arguments, "path"@) matches Some(JsonView::Text(requested))
            &&& relative_path(requested)
            &&& resolved matches Ok(path)
            &&& lies_in(path.components, workspace.components)
            &&& is_file
        },
        prepared_read(call, workspace, maximum, resolved, is_file) matches Ok(prepared) ==> {
            &&& prepared.call_id == call.id
            &&& prepared.action.tool_name == "read_file"@
            &&& prepared.action.effect == EffectKind::ReadOnly
            &&& prepared.action.retry_safety == RetrySafety::Safe
            &&& prepared.action.scope == Some(workspace.shown)
            &&& read_request_of(prepared.action) == Ok::<(Seq<char>, usize), ToolErrorView>(
                (resolved->Ok_0.shown, maximum),
            )
        },
{
    reveal_strlit("path");
    reveal_strlit("maximum_bytes");
    assert("path"@.len() == 4 && "maximum_bytes"@.len() == 13);
}

/// The value of a file that was read has its path, and its content byte for byte: encoded
/// again, the content is what the file holds. A file that is too long or no text has none.
pub proof fn law_file_values_hold_the_file(path: Seq<char>, bytes: Seq<u8>, maximum: usize)
    ensures
        read_outcome(path, bytes, maximum) is Ok <==> bytes.len() <= maximum && valid_utf8(bytes),
        read_outcome(path, bytes, maximum) matches Ok(value) ==> {
            &&& member(value, "path"@) == Some(JsonView::Text(path))
            &&& member(value, "content"@) matches Some(JsonView::Text(content))
            &&& encode_utf8(content) == bytes
        },
        read_outcome(path, bytes, maximum) matches Err(error) ==> error is Execution,
{
    reveal_strlit("path");
    reveal_strlit("content");
    assert("path"@.len() == 4 && "content"@.len() == 7);
    if valid_utf8(bytes) {
        decode_utf8_encode_utf8(bytes);
    }
}

/// The values of two files with different contents differ.
pub proof fn law_different_files_have_different_values(
    path: Seq<char>,
    one: Seq<u8>,
    other: Seq<u8>,
    maximum: usize,
)
    requires
        one != other,
        read_outcome(path, one, maximum) is Ok,
    ensures
        read_outcome(path, one, maximum) != read_outcome(path, other, maximum),
{
    law_file_values_hold_the_file(path, one, maximum);
    law_file_values_hold_the_file(path, other, maximum);
}

/// A write is prepared as it was asked for: the action has the id of the call, writes in the
/// workspace, may be repeated, and asks for the content of the call under its path in the
/// workspace, with the directories above it where the call asks for them.
pub proof fn law_writes_are_prepared_as_asked(
    call: ToolCallView,
    workspace: PathView,
    maximum: usize,
    ancestors: Seq<PathProbeView>,
    existing: PathProbeView,
)
    requires
        workspace.shown.len() > 0,
        workspace.shown.last() != '/',
    ensures
        prepared_write(call, workspace, maximum, ancestors, existing) matches Ok(prepared) ==> {
            &&& prepared.call_id == call.id
            &&& prepared.action.tool_name == "write_file"@
            &&& prepared.action.effect == EffectKind::WorkspaceWrite
            &&& prepared.action.retry_safety == RetrySafety::Idempotent
            &&& prepared.action.scope == Some(workspace.shown)
            &&& member(call.arguments, "path"@) matches Some(JsonView::Text(requested))
            &&& relative_path(requested)
            &&& member(call.arguments, "content"@) matches Some(JsonView::Text(content))
            &&& encode_utf8(content).len() <= maximum
            &&& write_request_of(prepared.action) == Ok::<
                (Seq<char>, Seq<char>, bool),
                ToolErrorView,
            >(
                (
                    workspace.shown + "/"@ + requested,
                    content,
                    member(call.arguments, "create_directories"@) == Some(JsonView::Bool(true)),
                ),
            )
        },
{
    reveal_strlit("path");
    reveal_strlit("content");
    reveal_strlit("create_directories");
    assert("path"@.len() == 4 && "content"@.len() == 7 && "create_directories"@.len() == 18);
}

/// A target inside the workspace is refused only where the nearest directory above it that
/// exists, or the target itself, cannot be resolved or leads outside.
pub proof fn law_writes_are_refused_only_outside(
    workspace: PathView,
    target: PathView,
    ancestors: Seq<PathProbeView>,
    existing: PathProbeView,
    nearest: int,
)
    requires
        0 <= nearest < ancestors.len(),
        ancestors[nearest].present,
        forall|i: int| 0 <= i < nearest ==> !(#[trigger] ancestors[i]).present,
    ensures
        write_refusal(workspace, target, ancestors, existing) is None <==> {
            &&& lies_in(target.components, workspace.components)
            &&& ancestors[nearest].resolved matches Ok(above)
            &&& lies_in(above.components, workspace.components)
            &&& existing.present ==> (existing.resolved matches Ok(there) && lies_in(
                there.components,
                workspace.components,
            ))
        },
{
    lemma_nearest(workspace, ancestors, 0, nearest);
}

proof fn lemma_nearest(
    workspace: PathView,
    ancestors: Seq<PathProbeView>,
    at: int,
    nearest: int,
)
    requires
        0 <= at <= nearest < ancestors.len(),
        ancestors[nearest].present,
        forall|i: int| at <= i < nearest ==> !(#[trigger] ancestors[i]).present,
    ensures
        ancestor_refusal(workspace, ancestors, at) is None <==> (ancestors[nearest].resolved matches Ok(
            above,
        ) && lies_in(above.components, workspace.components)),
    decreases nearest - at,
{
    if at < nearest {
        assert(!ancestors[at].present);
        lemma_nearest(workspace, ancestors, at + 1, nearest);
    }
}

/// The value of a write tells the path that was written and how many bytes were.
pub proof fn law_write_values_tell_the_write(
    tool: WriteFileTool,
    request: WriteRequest,
    output: ToolOutput,
)
    requires
        call_ensures(WriteFileTool::outcome, (&tool, &request), output),
    ensures
        member(output@.value, "path"@) == Some(JsonView::Text(request.path@)),
        member(output@.value, "bytes_written"@) == Some(
            JsonView::Integer(encode_utf8(request.content@).len() as int),
        ),
{
    reveal_strlit("path");
    reveal_strlit("bytes_written");
    assert("path"@.len() == 4 && "bytes_written"@.len() == 13);
}

/// A directory is what the host resolved, where it is one.
pub proof fn law_directories_are_what_was_resolved(
    resolved: Result<PathView, Seq<char>>,
    is_directory: bool,
)
    ensures
        directory_of(resolved, is_directory) is Ok <==> resolved is Ok && is_directory,
        directory_of(resolved, is_directory) matches Ok(path) ==> resolved == Ok::<
            PathView,
            Seq<char>,
        >(path),
{
}

// ---------------------------------------------------------------------------
// Definitions
// ---------------------------------------------------------------------------

/// Whether a schema is that of an object with these required texts and no other members than those
/// that it lists.
pub open spec fn requires_text(schema: JsonView, name: Seq<char>) -> bool {
    &&& member(schema, "type"@) == Some(JsonView::Text("object"@))
    &&& member(schema, "additionalProperties"@) == Some(JsonView::Bool(false))
    &&& member(schema, "required"@) matches Some(JsonView::Array(names))
    &&& names.contains(JsonView::Text(name))
    &&& member(schema, "properties"@) matches Some(properties)
    &&& member(properties, name) matches Some(kind)
    &&& member(kind, "type"@) == Some(JsonView::Text("string"@))
}

/// The tools of a workspace are offered under their names, and each asks for what it needs: the
/// shell for a command, reading for a path, and writing for a path and a content.
pub proof fn law_tools_ask_for_what_they_need()
    ensures
        shell_definition().name == "shell"@,
        read_file_definition().name == "read_file"@,
        write_file_definition().name == "write_file"@,
        requires_text(shell_definition().input_schema, "command"@),
        requires_text(read_file_definition().input_schema, "path"@),
        requires_text(write_file_definition().input_schema, "path"@),
        requires_text(write_file_definition().input_schema, "content"@),
{
    reveal_strlit("type");
    reveal_strlit("properties");
    reveal_strlit("required");
    reveal_strlit("additionalProperties");
    assert("type"@.len() == 4 && "properties"@.len() == 10 && "required"@.len() == 8
        && "additionalProperties"@.len() == 20);
    reveal_strlit("command");
    reveal_strlit("timeout_ms");
    assert("command"@.len() == 7 && "timeout_ms"@.len() == 10);
    reveal_strlit("path");
    reveal_strlit("content");
    reveal_strlit("create_directories");
    assert("path"@.len() == 4 && "content"@.len() == 7 && "create_directories"@.len() == 18);
    let text = |name: Seq<char>| JsonView::Text(name);
    let shell = seq!["command"@].map_values(text);
    let read = seq!["path"@].map_values(text);
    let write = seq!["path"@, "content"@].map_values(text);
    assert(shell[0] == JsonView::Text("command"@));
    assert(read[0] == JsonView::Text("path"@));
    assert(write[0] == JsonView::Text("path"@));
    assert(write[1] == JsonView::Text("content"@));
}

/// A workspace registers its three tools, each under its own name and with what runs it, where no
/// name is taken; a name that is taken stops it.
pub proof fn law_workspaces_register_their_tools<T>(
    before: Map<Seq<char>, (ToolDefinitionView, T)>,
    read: T,
    write: T,
    shell: T,
    after: Map<Seq<char>, (ToolDefinitionView, T)>,
    taken: Option<Seq<char>>,
)
    requires
        registers(before, read, write, shell, after, taken),
    ensures
        taken is None <==> !before.contains_key("read_file"@) && !before.contains_key(
            "write_file"@,
        ) && !before.contains_key("shell"@),
        taken is None ==> after.contains_key("read_file"@) && after["read_file"@].1 == read
            && after.contains_key("write_file"@) && after["write_file"@].1 == write
            && after.contains_key("shell"@) && after["shell"@].1 == shell,
        forall|name: Seq<char>| #[trigger]
            before.contains_key(name) ==> after.contains_key(name) && after[name] == before[name],
{
    reveal_strlit("read_file");
    reveal_strlit("write_file");
    reveal_strlit("shell");
    assert("read_file"@.len() == 9 && "write_file"@.len() == 10 && "shell"@.len() == 5);
}

/// A command runs only where it was not cancelled before, and its output is the answer only where
/// it was not cancelled while it ran.
pub proof fn law_cancelled_commands_do_not_answer<R: ProcessRunner, C: Fn() -> bool>(
    runner: R,
    request: ProcessRequest,
    cancelled: C,
    output: Result<ProcessOutput, ProcessError>,
)
    requires
        call_requires(cancelled, ()),
        call_ensures(run_plainly::<R, C>, (&runner, &request, &cancelled), output),
    ensures
        !call_ensures(cancelled, (), false) ==> res_view(output) == Err::<
            ProcessOutputView,
            ProcessErrorView,
        >(ProcessErrorView::Cancelled),
        output matches Ok(found) ==> exists|answer: Result<ProcessOutput, ProcessError>| #[trigger]
            call_ensures(R::run, (&runner, &request), answer) && answer is Ok && answer->Ok_0@
                == found@,
        !call_ensures(cancelled, (), true) ==> exists|answer: Result<ProcessOutput, ProcessError>|
            #[trigger]
            call_ensures(R::run, (&runner, &request), answer) && res_view(answer) == res_view(
                output,
            ),
{
}

/// An argument that is missing or no text is refused under its name.
pub proof fn law_missing_arguments_are_named(arguments: JsonView, name: Seq<char>)
    ensures
        text_argument(arguments, name) is Ok <==> (member(arguments, name) matches Some(
            JsonView::Text(_),
        )),
        text_argument(arguments, name) matches Ok(text) ==> member(arguments, name) == Some(
            JsonView::Text(text),
        ),
        text_argument(arguments, name) is Err ==> (text_argument(arguments, name) matches Err(
            ToolErrorView::InvalidArguments(told),
        ) && occurs(told, name)),
{
    let told = "`"@ + name + "` must be a string"@;
    let at = "`"@.len() as int;
    assert(told.subrange(at, at + name.len()) =~= name);
    assert(stands_at(told, name, at));
}

proof fn lemma_first_segment(path: Seq<char>)
    ensures
        segments_of(path).len() > 0,
        segments_of(path).len() == 1 ==> segments_of(path)[0] == path,
        segments_of(path)[0].len() > 0 ==> path.len() > 0 && path[0] == segments_of(path)[0][0]
            && path[0] != '/',
    decreases path.len(),
{
    if path.len() > 0 {
        let front = path.drop_last();
        let earlier = segments_of(front);
        lemma_first_segment(front);
        if path.last() != '/' {
            if earlier.len() == 1 {
                assert(segments_of(path)[0] =~= path);
                if front.len() > 0 {
                    assert(earlier[0][0] == front[0]);
                }
            } else {
                assert(segments_of(path)[0] == earlier[0]);
            }
        } else {
            assert(segments_of(path)[0] == earlier[0]);
        }
    }
}

/// A path that is taken as relative begins at no root and climbs nowhere: no part of it is the
/// directory above.
pub proof fn law_relative_paths_climb_nowhere(path: Seq<char>)
    requires
        relative_path(path),
    ensures
        path.len() > 0,
        path[0] != '/',
        forall|i: int|
            0 <= i < segments_of(path).len() ==> (#[trigger] segments_of(path)[i]) != ".."@,
{
    lemma_first_segment(path);
}

/// A path is taken as relative where its first part is a name and no part is the directory above.
pub proof fn law_plain_paths_are_relative(path: Seq<char>)
    requires
        segments_of(path)[0].len() > 0,
        segments_of(path)[0] != "."@,
        forall|i: int|
            0 <= i < segments_of(path).len() ==> (#[trigger] segments_of(path)[i]) != ".."@,
    ensures
        relative_path(path),
{
    lemma_first_segment(path);
}

} // verus!
