//! Running commands, and tools on the files of a workspace.
//! 
//! The bubblewrap runner is an OS boundary on Linux. The local runner and the path checks
//! of the workspace are explicitly not sandboxes. The host starts processes and touches
//! files; paths are separated by slashes.

use vstd::prelude::*;
use vstd::string::*;

use crate::datum::{
    done_view, lemma_views_concat, lemma_views_push, list_view, opt_view, res_view, snapshot_all,
    views, Datum,
};
use crate::context::{is_inside, lies_in, PathView, ResolvedPath};
use crate::json::{
    bare_object, member, no_members, object_view, text_array, text_json, with_member, Json,
    JsonView,
};
use crate::keyed::Keyed;
use crate::protocol::{
    CanonicalAction, CanonicalActionView, EffectKind, PreparedToolCall, PreparedToolCallView,
    RetrySafety, ToolCall, ToolCallView,
};
use crate::provider::{
    get_text, get_unsigned, make_pair, make_triple, pair_object, text_member, triple_object,
    unsigned_member,
};
use crate::text::{
    blank, byte_len, chars_of, decimal_of, decimal_usize, is_blank, same_text, whitespace,
};
use crate::tool::{
    registry_error_text, RegistryErrorView, ToolDefinition, ToolDefinitionView, ToolError,
    ToolErrorView, ToolOutput, ToolRegistry,
};
use crate::utf8::{append_capped, capped_bytes, decode, decode_lossy, lossy_text};
use vstd::utf8::*;

verus! {

/// Why a process did not run to its end.
#[derive(Debug, PartialEq, Eq)]
pub enum ProcessError {
    Cancelled,
    Io(String),
    Invalid(String),
}

/// The model of [`ProcessError`].
#[verifier::ext_equal]
pub ghost enum ProcessErrorView {
    Cancelled,
    Io(Seq<char>),
    Invalid(Seq<char>),
}

impl View for ProcessError {
    type V = ProcessErrorView;

    open spec fn view(&self) -> ProcessErrorView {
        match *self {
            ProcessError::Cancelled => ProcessErrorView::Cancelled,
            ProcessError::Io(x0) => ProcessErrorView::Io(x0@),
            ProcessError::Invalid(x0) => ProcessErrorView::Invalid(x0@),
        }
    }
}

impl Datum for ProcessError {
    fn snapshot(&self) -> (copy: Self) {
        match self {
            ProcessError::Cancelled => ProcessError::Cancelled,
            ProcessError::Io(x0) => ProcessError::Io(x0.snapshot()),
            ProcessError::Invalid(x0) => ProcessError::Invalid(x0.snapshot()),
        }
    }

    fn same(&self, other: &Self) -> (equal: bool) {
        match (self, other) {
            (ProcessError::Cancelled, ProcessError::Cancelled) => true,
            (ProcessError::Io(x0), ProcessError::Io(y0)) => x0.same(y0),
            (ProcessError::Invalid(x0), ProcessError::Invalid(y0)) => x0.same(y0),
            _ => false,
        }
    }
}

impl Clone for ProcessError {
    fn clone(&self) -> (copy: Self)
        ensures
            copy@ == self@,
    {
        self.snapshot()
    }
}

/// A command that is to be run.
#[derive(Debug, PartialEq, Eq)]
pub struct ProcessRequest {
    pub command: String,
    pub working_directory: String,
    pub timeout_ms: u64,
}

/// The model of [`ProcessRequest`].
#[verifier::ext_equal]
pub ghost struct ProcessRequestView {
    pub command: Seq<char>,
    pub working_directory: Seq<char>,
    pub timeout_ms: u64,
}

impl View for ProcessRequest {
    type V = ProcessRequestView;

    open spec fn view(&self) -> ProcessRequestView {
        ProcessRequestView {
            command: self.command@,
            working_directory: self.working_directory@,
            timeout_ms: self.timeout_ms,
        }
    }
}

impl Datum for ProcessRequest {
    fn snapshot(&self) -> (copy: Self) {
        ProcessRequest {
            command: self.command.snapshot(),
            working_directory: self.working_directory.snapshot(),
            timeout_ms: self.timeout_ms,
        }
    }

    fn same(&self, other: &Self) -> (equal: bool) {
        self.command.same(&other.command) && self.working_directory.same(&other.working_directory)
            && self.timeout_ms == other.timeout_ms
    }
}

impl Clone for ProcessRequest {
    fn clone(&self) -> (copy: Self)
        ensures
            copy@ == self@,
    {
        self.snapshot()
    }
}

/// What a process left behind.
#[derive(Debug, PartialEq, Eq)]
pub struct ProcessOutput {
    pub exit_code: Option<i32>,
    pub stdout: String,
    pub stderr: String,
    pub timed_out: bool,
    pub stdout_truncated: bool,
    pub stderr_truncated: bool,
}

/// The model of [`ProcessOutput`].
#[verifier::ext_equal]
pub ghost struct ProcessOutputView {
    pub exit_code: Option<i32>,
    pub stdout: Seq<char>,
    pub stderr: Seq<char>,
    pub timed_out: bool,
    pub stdout_truncated: bool,
    pub stderr_truncated: bool,
}

impl View for ProcessOutput {
    type V = ProcessOutputView;

    open spec fn view(&self) -> ProcessOutputView {
        ProcessOutputView {
            exit_code: self.exit_code,
            stdout: self.stdout@,
            stderr: self.stderr@,
            timed_out: self.timed_out,
            stdout_truncated: self.stdout_truncated,
            stderr_truncated: self.stderr_truncated,
        }
    }
}

impl Clone for ProcessOutput {
    fn clone(&self) -> (copy: Self)
        ensures
            copy@ == self@,
    {
        ProcessOutput {
            exit_code: self.exit_code,
            stdout: self.stdout.clone(),
            stderr: self.stderr.clone(),
            timed_out: self.timed_out,
            stdout_truncated: self.stdout_truncated,
            stderr_truncated: self.stderr_truncated,
        }
    }
}

/// The message of a failure.
pub open spec fn process_error_text(error: ProcessErrorView) -> Seq<char> {
    match error {
        ProcessErrorView::Cancelled => {
            "process cancelled; effects before termination may have occurred"@
        },
        ProcessErrorView::Io(detail) => "process I/O error: "@ + detail,
        ProcessErrorView::Invalid(detail) => "invalid process request: "@ + detail,
    }
}

impl ProcessError {
    pub fn to_text(&self) -> (text: String)
        ensures
            text@ == process_error_text(self@),
    {
        match self {
            ProcessError::Cancelled => {
                "process cancelled; effects before termination may have occurred".to_owned()
            },
            ProcessError::Io(detail) => "process I/O error: ".to_owned().concat(detail.as_str()),
            ProcessError::Invalid(detail) => {
                "invalid process request: ".to_owned().concat(detail.as_str())
            },
        }
    }
}

/// What runs commands.
pub trait ProcessRunner {
    fn run(&self, request: &ProcessRequest) -> Result<ProcessOutput, ProcessError>;
}

/// What a command that cannot be interrupted answers, if the request may have been
/// cancelled before or meanwhile.
pub open spec fn ran_plainly(
    answer: Result<ProcessOutputView, ProcessErrorView>,
    cancelled: bool,
) -> Result<ProcessOutputView, ProcessErrorView> {
    if cancelled {
        Err(ProcessErrorView::Cancelled)
    } else {
        answer
    }
}

/// Whether a runner that cannot be interrupted was asked for a command, and what it
/// answered became this output when the host was asked about cancellation afterwards.
pub open spec fn ran_through<R: ProcessRunner, C: Fn() -> bool>(
    runner: R,
    request: &ProcessRequest,
    cancelled: C,
    output: Result<ProcessOutputView, ProcessErrorView>,
) -> bool {
    exists|answer: Result<ProcessOutput, ProcessError>, after: bool| #[trigger]
        call_ensures(R::run, (&runner, request), answer) && #[trigger] call_ensures(
            cancelled,
            (),
            after,
        ) && output == ran_plainly(res_view(answer), after)
}

/// Runs a command with a runner that cannot interrupt it. Cancellation is only observed
/// around the call: `cancelled` asks the host, before the call and after it.
pub fn run_plainly<R: ProcessRunner, C: Fn() -> bool>(
    runner: &R,
    request: &ProcessRequest,
    cancelled: &C,
) -> (output: Result<ProcessOutput, ProcessError>)
    requires
        call_requires(*cancelled, ()),
    ensures
        exists|before: bool| #[trigger]
            call_ensures(*cancelled, (), before) && if before {
                res_view(output) == Err::<ProcessOutputView, ProcessErrorView>(
                    ProcessErrorView::Cancelled,
                )
            } else {
                ran_through(*runner, request, *cancelled, res_view(output))
            },
{
    let before = cancelled();
    assert(call_ensures(*cancelled, (), before));
    if before {
        return Err(ProcessError::Cancelled);
    }
    let answer = runner.run(request);
    assert(call_ensures(R::run, (runner, request), answer));
    let after = cancelled();
    assert(call_ensures(*cancelled, (), after));
    let output = conclude_command(after, answer);
    assert(ran_through(*runner, request, *cancelled, res_view(output)));
    output
}

// ---------------------------------------------------------------------------
// Commands
// ---------------------------------------------------------------------------

/// A program with its arguments, as the host starts it.
#[derive(Debug, PartialEq, Eq)]
pub struct CommandLine {
    pub program: String,
    pub arguments: Vec<String>,
    pub directory: Option<String>,
    /// Whether the program starts without environment variables.
    pub clear_environment: bool,
}

/// The model of [`CommandLine`].
#[verifier::ext_equal]
pub ghost struct CommandLineView {
    pub program: Seq<char>,
    pub arguments: Seq<Seq<char>>,
    pub directory: Option<Seq<char>>,
    pub clear_environment: bool,
}

impl View for CommandLine {
    type V = CommandLineView;

    open spec fn view(&self) -> CommandLineView {
        CommandLineView {
            program: self.program@,
            arguments: views(self.arguments@),
            directory: opt_view(self.directory),
            clear_environment: self.clear_environment,
        }
    }
}

/// Unsandboxed runner. It must be selected explicitly.
#[derive(Debug, Clone, Copy, PartialEq, Eq)]
pub struct LocalProcessRunner {
    maximum_output_bytes: usize,
}

impl LocalProcessRunner {
    /// How much of each output is kept.
    pub closed spec fn maximum(&self) -> usize {
        self.maximum_output_bytes
    }

    pub fn new(maximum_output_bytes: usize) -> (runner: Self)
        ensures
            runner.maximum() == maximum_output_bytes,
    {
        LocalProcessRunner { maximum_output_bytes }
    }

    pub fn maximum_output_bytes(&self) -> (maximum: usize)
        ensures
            maximum == self.maximum(),
    {
        self.maximum_output_bytes
    }

    /// The command of a request: a shell in the working directory. A cancelled request runs
    /// nothing.
    pub fn command(&self, cancelled: bool, request: &ProcessRequest) -> (command: Result<
        CommandLine,
        ProcessError,
    >)
        ensures
            res_view(command) == (if cancelled {
                Err(ProcessErrorView::Cancelled)
            } else {
                Ok(
                    CommandLineView {
                        program: "/bin/sh"@,
                        arguments: seq!["-lc"@, request@.command],
                        directory: Some(request@.working_directory),
                        clear_environment: false,
                    },
                )
            }),
    {
        if cancelled {
            return Err(ProcessError::Cancelled);
        }
        let mut arguments: Vec<String> = Vec::new();
        arguments.push("-lc".to_owned());
        arguments.push(request.command.clone());
        assert(views(arguments@) =~= seq!["-lc"@, request@.command]);
        Ok(
            CommandLine {
                program: "/bin/sh".to_owned(),
                arguments,
                directory: Some(request.working_directory.clone()),
                clear_environment: false,
            },
        )
    }
}

/// A directory that the host resolved, or why it is none.
pub open spec fn directory_of(
    resolved: Result<PathView, Seq<char>>,
    is_directory: bool,
) -> Result<PathView, ProcessErrorView> {
    match resolved {
        Err(message) => Err(ProcessErrorView::Io(message)),
        Ok(path) => if is_directory {
            Ok(path)
        } else {
            Err(ProcessErrorView::Invalid("`"@ + path.shown + "` is not a directory"@))
        },
    }
}

/// The view of what the host resolved.
pub open spec fn resolved_view(resolved: Result<ResolvedPath, String>) -> Result<
    PathView,
    Seq<char>,
> {
    match resolved {
        Ok(path) => Ok(path@),
        Err(message) => Err(message@),
    }
}

/// A directory that the host resolved, or why it is none.
pub fn canonical_directory(resolved: Result<ResolvedPath, String>, is_directory: bool) -> (directory:
    Result<ResolvedPath, ProcessError>)
    ensures
        res_view(directory) == directory_of(resolved_view(resolved), is_directory),
{
    match resolved {
        Err(message) => Err(ProcessError::Io(message)),
        Ok(path) => {
            if !is_directory {
                return Err(
                    ProcessError::Invalid(
                        "`".to_owned().concat(path.shown.as_str()).concat("` is not a directory"),
                    ),
                );
            }
            Ok(path)
        },
    }
}

/// The model of [`BubblewrapRunner`].
#[verifier::ext_equal]
pub ghost struct BubblewrapView {
    pub binary: Seq<char>,
    pub workspace: PathView,
    pub maximum_output_bytes: usize,
    pub allow_network: bool,
    pub additional_read_only_binds: Seq<Seq<char>>,
}

/// Linux bubblewrap runner with no network and no home directory mounted by
/// default. The workspace is the only writable host bind.
#[derive(Debug)]
pub struct BubblewrapRunner {
    binary: String,
    workspace: ResolvedPath,
    maximum_output_bytes: usize,
    allow_network: bool,
    additional_read_only_binds: Vec<String>,
}

impl View for BubblewrapRunner {
    type V = BubblewrapView;

    closed spec fn view(&self) -> BubblewrapView {
        BubblewrapView {
            binary: self.binary@,
            workspace: self.workspace@,
            maximum_output_bytes: self.maximum_output_bytes,
            allow_network: self.allow_network,
            additional_read_only_binds: views(self.additional_read_only_binds@),
        }
    }
}

impl Clone for BubblewrapRunner {
    fn clone(&self) -> (copy: Self)
        ensures
            copy@ == self@,
    {
        BubblewrapRunner {
            binary: self.binary.clone(),
            workspace: self.workspace.clone(),
            maximum_output_bytes: self.maximum_output_bytes,
            allow_network: self.allow_network,
            additional_read_only_binds: snapshot_all(&self.additional_read_only_binds),
        }
    }
}

/// Which of the system's directories exist.
#[derive(Debug, Clone, Copy, PartialEq, Eq)]
pub struct SystemPaths {
    pub usr: bool,
    pub bin: bool,
    pub lib: bool,
    pub lib64: bool,
}

/// A read-only bind of a path to itself.
pub open spec fn read_only_bind(path: Seq<char>) -> Seq<Seq<char>> {
    seq!["--ro-bind"@, path, path]
}

/// The bind of a system directory, if it exists.
pub open spec fn system_bind(exists_: bool, path: Seq<char>) -> Seq<Seq<char>> {
    if exists_ {
        read_only_bind(path)
    } else {
        Seq::empty()
    }
}

/// The binds of paths that were resolved.
pub open spec fn binds_of(paths: Seq<Seq<char>>) -> Seq<Seq<char>>
    decreases paths.len(),
{
    if paths.len() == 0 {
        Seq::empty()
    } else {
        binds_of(paths.drop_last()) + read_only_bind(paths.last())
    }
}

/// The resolved paths up to `count`, or why one was not resolved.
pub open spec fn resolved_up_to(paths: Seq<Result<Seq<char>, Seq<char>>>, count: int) -> Result<
    Seq<Seq<char>>,
    Seq<char>,
>
    decreases count,
{
    if count <= 0 {
        Ok(Seq::empty())
    } else {
        match resolved_up_to(paths, count - 1) {
            Err(message) => Err(message),
            Ok(earlier) => match paths[count - 1] {
                Err(message) => Err(message),
                Ok(path) => Ok(earlier.push(path)),
            },
        }
    }
}

/// The arguments of a sandbox.
pub open spec fn sandbox_arguments(
    runner: BubblewrapView,
    system: SystemPaths,
    binds: Seq<Seq<char>>,
    directory: Seq<char>,
    command: Seq<char>,
) -> Seq<Seq<char>> {
    seq!["--die-with-parent"@, "--new-session"@, "--unshare-all"@] + (if runner.allow_network {
        seq!["--share-net"@]
    } else {
        Seq::empty()
    }) + system_bind(system.usr, "/usr"@) + system_bind(system.bin, "/bin"@) + system_bind(
        system.lib,
        "/lib"@,
    ) + system_bind(system.lib64, "/lib64"@) + binds_of(binds) + last_arguments(
        runner.workspace,
        directory,
        command,
    )
}

/// The last arguments of a sandbox. Only the workspace can be written.
pub open spec fn last_arguments(
    workspace: PathView,
    directory: Seq<char>,
    command: Seq<char>,
) -> Seq<Seq<char>> {
    seq![
        "--proc"@,
        "/proc"@,
        "--dev"@,
        "/dev"@,
        "--tmpfs"@,
        "/tmp"@,
        "--bind"@,
        workspace.shown,
        workspace.shown,
        "--chdir"@,
        directory,
        "/bin/sh"@,
        "-lc"@,
        command,
    ]
}

/// The view of paths that the host resolved.
pub open spec fn path_results(paths: Seq<Result<String, String>>) -> Seq<
    Result<Seq<char>, Seq<char>>,
> {
    paths.map_values(|path: Result<String, String>| res_view(path))
}

/// The command of a request in the sandbox, or why there is none. The working directory
/// must lie in the workspace.
pub open spec fn sandboxed(
    runner: BubblewrapView,
    cancelled: bool,
    request: ProcessRequestView,
    directory: Result<PathView, Seq<char>>,
    system: SystemPaths,
    binds: Seq<Result<Seq<char>, Seq<char>>>,
) -> Result<CommandLineView, ProcessErrorView> {
    if cancelled {
        Err(ProcessErrorView::Cancelled)
    } else {
        match directory {
            Err(message) => Err(ProcessErrorView::Io(message)),
            Ok(path) => if !lies_in(path.components, runner.workspace.components) {
                Err(
                    ProcessErrorView::Invalid(
                        "working directory `"@ + path.shown + "` is outside sandbox workspace `"@
                            + runner.workspace.shown + "`"@,
                    ),
                )
            } else {
                match resolved_up_to(binds, binds.len() as int) {
                    Err(message) => Err(ProcessErrorView::Io(message)),
                    Ok(found) => Ok(
                        CommandLineView {
                            program: runner.binary,
                            arguments: sandbox_arguments(
                                runner,
                                system,
                                found,
                                path.shown,
                                request.command,
                            ),
                            directory: None,
                            clear_environment: true,
                        },
                    ),
                }
            },
        }
    }
}

fn add_argument(arguments: &mut Vec<String>, argument: &str)
    ensures
        views(final(arguments)@) == views(old(arguments)@).push(argument@),
{
    let text = argument.to_owned();
    proof {
        lemma_views_push(arguments@, text);
    }
    arguments.push(text);
}

fn add_bind(arguments: &mut Vec<String>, path: &str)
    ensures
        views(final(arguments)@) == views(old(arguments)@) + read_only_bind(path@),
{
    let ghost before = views(arguments@);
    add_argument(arguments, "--ro-bind");
    add_argument(arguments, path);
    add_argument(arguments, path);
    assert(views(arguments@) =~= before + read_only_bind(path@));
}

fn add_system(arguments: &mut Vec<String>, exists_: bool, path: &str)
    ensures
        views(final(arguments)@) == views(old(arguments)@) + system_bind(exists_, path@),
{
    let ghost before = views(arguments@);
    if exists_ {
        add_bind(arguments, path);
    } else {
        assert(before + Seq::<Seq<char>>::empty() =~= before);
    }
}

fn add_binds(arguments: &mut Vec<String>, found: &Vec<String>)
    ensures
        views(final(arguments)@) == views(old(arguments)@) + binds_of(views(found@)),
{
    let ghost base = views(arguments@);
    let ghost paths = views(found@);
    let mut at: usize = 0;
    assert(paths.take(0) =~= Seq::empty());
    assert(base + binds_of(paths.take(0)) =~= base);
    while at < found.len()
        invariant
            at <= found@.len(),
            paths == views(found@),
            views(arguments@) == base + binds_of(paths.take(at as int)),
        decreases found@.len() - at,
    {
        proof {
            let grown = paths.take(at as int + 1);
            assert(grown.drop_last() =~= paths.take(at as int));
            assert(grown.last() == found@[at as int]@);
            assert(base + binds_of(paths.take(at as int)) + read_only_bind(grown.last()) =~= base
                + (binds_of(paths.take(at as int)) + read_only_bind(grown.last())));
        }
        add_bind(arguments, found[at].as_str());
        at = at + 1;
    }
    assert(paths.take(at as int) =~= paths);
}

fn collect_resolved(paths: &Vec<Result<String, String>>) -> (found: Result<Vec<String>, String>)
    ensures
        list_view(found) == resolved_up_to(path_results(paths@), paths@.len() as int),
{
    let ghost all = path_results(paths@);
    let mut found: Vec<String> = Vec::new();
    let mut at: usize = 0;
    assert(views(found@) =~= Seq::empty());
    while at < paths.len()
        invariant
            at <= paths@.len(),
            all == path_results(paths@),
            all.len() == paths@.len(),
            resolved_up_to(all, at as int) == Ok::<Seq<Seq<char>>, Seq<char>>(views(found@)),
        decreases paths@.len() - at,
    {
        assert(all[at as int] == res_view(paths@[at as int]));
        match &paths[at] {
            Ok(path) => {
                let path = path.clone();
                proof {
                    lemma_views_push(found@, path);
                }
                found.push(path);
            },
            Err(message) => {
                proof {
                    lemma_resolved_fails(all, at as int + 1, all.len() as int);
                }
                return Err(message.clone());
            },
        }
        at = at + 1;
    }
    Ok(found)
}

proof fn lemma_resolved_fails(
    paths: Seq<Result<Seq<char>, Seq<char>>>,
    failed: int,
    count: int,
)
    requires
        0 <= failed <= count,
        resolved_up_to(paths, failed) is Err,
    ensures
        resolved_up_to(paths, count) == resolved_up_to(paths, failed),
    decreases count,
{
    if failed < count {
        lemma_resolved_fails(paths, failed, count - 1);
    }
}

impl BubblewrapRunner {
    /// A runner in a workspace that the host resolved.
    pub fn new(
        workspace: Result<ResolvedPath, String>,
        is_directory: bool,
        maximum_output_bytes: usize,
    ) -> (runner: Result<Self, ProcessError>)
        ensures
            match runner {
                Ok(found) => directory_of(resolved_view(workspace), is_directory) == Ok::<
                    PathView,
                    ProcessErrorView,
                >(found@.workspace) && found@ == (BubblewrapView {
                    binary: "bwrap"@,
                    workspace: found@.workspace,
                    maximum_output_bytes,
                    allow_network: false,
                    additional_read_only_binds: Seq::empty(),
                }),
                Err(error) => directory_of(resolved_view(workspace), is_directory) == Err::<
                    PathView,
                    ProcessErrorView,
                >(error@),
            },
    {
        let workspace = match canonical_directory(workspace, is_directory) {
            Ok(workspace) => workspace,
            Err(error) => {
                return Err(error);
            },
        };
        let runner = BubblewrapRunner {
            binary: "bwrap".to_owned(),
            workspace,
            maximum_output_bytes,
            allow_network: false,
            additional_read_only_binds: Vec::new(),
        };
        assert(views(runner.additional_read_only_binds@) =~= Seq::empty());
        Ok(runner)
    }

    pub fn with_binary(self, binary: String) -> (runner: Self)
        ensures
            runner@ == (BubblewrapView { binary: binary@, ..self@ }),
    {
        BubblewrapRunner { binary, ..self }
    }

    pub fn with_network(self, allow: bool) -> (runner: Self)
        ensures
            runner@ == (BubblewrapView { allow_network: allow, ..self@ }),
    {
        BubblewrapRunner { allow_network: allow, ..self }
    }

    pub fn with_read_only_bind(self, path: String) -> (runner: Self)
        ensures
            runner@ == (BubblewrapView {
                additional_read_only_binds: self@.additional_read_only_binds.push(path@),
                ..self@
            }),
    {
        let mut binds = self.additional_read_only_binds;
        proof {
            lemma_views_push(binds@, path);
        }
        binds.push(path);
        BubblewrapRunner { additional_read_only_binds: binds, ..self }
    }

    /// The paths that are to be bound besides the system's.
    pub fn additional_read_only_binds(&self) -> (paths: &Vec<String>)
        ensures
            views(paths@) == self@.additional_read_only_binds,
    {
        &self.additional_read_only_binds
    }

    pub fn maximum_output_bytes(&self) -> (maximum: usize)
        ensures
            maximum == self@.maximum_output_bytes,
    {
        self.maximum_output_bytes
    }

    fn begin_arguments(&self) -> (arguments: Vec<String>)
        ensures
            views(arguments@) == seq![
                "--die-with-parent"@,
                "--new-session"@,
                "--unshare-all"@,
            ] + (if self@.allow_network {
                seq!["--share-net"@]
            } else {
                Seq::empty()
            }),
    {
        let mut arguments: Vec<String> = Vec::new();
        arguments.push("--die-with-parent".to_owned());
        arguments.push("--new-session".to_owned());
        arguments.push("--unshare-all".to_owned());
        if self.allow_network {
            arguments.push("--share-net".to_owned());
        }
        assert(views(arguments@) =~= seq![
            "--die-with-parent"@,
            "--new-session"@,
            "--unshare-all"@,
        ] + (if self.allow_network {
            seq!["--share-net"@]
        } else {
            Seq::empty()
        }));
        arguments
    }

    fn end_arguments(&self, arguments: &mut Vec<String>, directory: &str, command: &str)
        ensures
            views(final(arguments)@) == views(old(arguments)@) + last_arguments(
                self@.workspace,
                directory@,
                command@,
            ),
    {
        let mut last: Vec<String> = Vec::new();
        last.push("--proc".to_owned());
        last.push("/proc".to_owned());
        last.push("--dev".to_owned());
        last.push("/dev".to_owned());
        last.push("--tmpfs".to_owned());
        last.push("/tmp".to_owned());
        last.push("--bind".to_owned());
        last.push(self.workspace.shown.clone());
        last.push(self.workspace.shown.clone());
        last.push("--chdir".to_owned());
        last.push(directory.to_owned());
        last.push("/bin/sh".to_owned());
        last.push("-lc".to_owned());
        last.push(command.to_owned());
        proof {
            assert(views(last@) =~= last_arguments(self@.workspace, directory@, command@));
            lemma_views_concat(arguments@, last@);
        }
        arguments.append(&mut last);
    }

    /// The command of a request in the sandbox. The host resolves the working directory
    /// and the additional binds, and tells which directories of the system exist.
    pub fn command(
        &self,
        cancelled: bool,
        request: &ProcessRequest,
        directory: Result<ResolvedPath, String>,
        system: SystemPaths,
        binds: &Vec<Result<String, String>>,
    ) -> (command: Result<CommandLine, ProcessError>)
        ensures
            res_view(command) == sandboxed(
                self@,
                cancelled,
                request@,
                resolved_view(directory),
                system,
                path_results(binds@),
            ),
    {
        if cancelled {
            return Err(ProcessError::Cancelled);
        }
        let directory = match directory {
            Ok(directory) => directory,
            Err(message) => {
                return Err(ProcessError::Io(message));
            },
        };
        if !is_inside(&directory.components, &self.workspace.components) {
            return Err(
                ProcessError::Invalid(
                    "working directory `".to_owned().concat(directory.shown.as_str()).concat(
                        "` is outside sandbox workspace `",
                    ).concat(self.workspace.shown.as_str()).concat("`"),
                ),
            );
        }
        let found = match collect_resolved(binds) {
            Ok(found) => found,
            Err(message) => {
                return Err(ProcessError::Io(message));
            },
        };
        let mut arguments = self.begin_arguments();
        add_system(&mut arguments, system.usr, "/usr");
        add_system(&mut arguments, system.bin, "/bin");
        add_system(&mut arguments, system.lib, "/lib");
        add_system(&mut arguments, system.lib64, "/lib64");
        add_binds(&mut arguments, &found);
        self.end_arguments(
            &mut arguments,
            directory.shown.as_str(),
            request.command.as_str(),
        );
        Ok(
            CommandLine {
                program: self.binary.clone(),
                arguments,
                directory: None,
                clear_environment: true,
            },
        )
    }
}

// ---------------------------------------------------------------------------
// Output and supervision
// ---------------------------------------------------------------------------

/// The model of [`CapturedPipe`].
#[verifier::ext_equal]
pub ghost struct PipeView {
    pub retained: Seq<u8>,
    pub maximum: usize,
    pub truncated: bool,
    pub eof: bool,
}

/// The start of what a pipe delivers.
#[derive(Debug)]
pub struct CapturedPipe {
    retained: Vec<u8>,
    maximum: usize,
    truncated: bool,
    eof: bool,
}

impl View for CapturedPipe {
    type V = PipeView;

    closed spec fn view(&self) -> PipeView {
        PipeView {
            retained: self.retained@,
            maximum: self.maximum,
            truncated: self.truncated,
            eof: self.eof,
        }
    }
}

/// A pipe after it delivered bytes. What is beyond the maximum is dropped.
pub open spec fn drained(pipe: PipeView, chunk: Seq<u8>) -> PipeView {
    PipeView {
        retained: capped_bytes(pipe.retained, chunk, pipe.maximum as nat),
        truncated: pipe.truncated || (chunk.len() > 0 && pipe.retained.len() + chunk.len()
            > pipe.maximum),
        ..pipe
    }
}

impl CapturedPipe {
    #[verifier::type_invariant]
    spec fn bounded(self) -> bool {
        self.retained@.len() <= self.maximum
    }

    pub fn new(maximum: usize) -> (pipe: Self)
        ensures
            pipe@ == (PipeView { retained: Seq::empty(), maximum, truncated: false, eof: false }),
    {
        let pipe = CapturedPipe { retained: Vec::new(), maximum, truncated: false, eof: false };
        assert(pipe.retained@ =~= Seq::empty());
        pipe
    }

    /// Takes what the pipe delivered.
    pub fn drain(&mut self, chunk: &Vec<u8>)
        ensures
            final(self)@ == drained(old(self)@, chunk@),
            final(self)@.retained.len() <= final(self)@.maximum,
    {
        proof {
            use_type_invariant(&*self);
        }
        let remaining: usize = self.maximum - self.retained.len();
        let more: bool = chunk.len() > remaining;
        let mut retained: Vec<u8> = Vec::new();
        std::mem::swap(&mut retained, &mut self.retained);
        append_capped(&mut retained, chunk, self.maximum);
        self.retained = retained;
        if more {
            self.truncated = true;
        }
    }

    /// The pipe was closed.
    pub fn close(&mut self)
        ensures
            final(self)@ == (PipeView { eof: true, ..old(self)@ }),
    {
        proof {
            use_type_invariant(&*self);
        }
        self.eof = true;
    }

    /// Whether the pipe was closed.
    pub fn is_closed(&self) -> (yes: bool)
        ensures
            yes == self@.eof,
    {
        self.eof
    }
}

/// A pipe after it delivered several chunks.
pub open spec fn drained_all(pipe: PipeView, chunks: Seq<Seq<u8>>) -> PipeView
    decreases chunks.len(),
{
    if chunks.len() == 0 {
        pipe
    } else {
        drained(drained_all(pipe, chunks.drop_last()), chunks.last())
    }
}

/// The bytes of chunks, one after the other.
pub open spec fn flattened(chunks: Seq<Seq<u8>>) -> Seq<u8>
    decreases chunks.len(),
{
    if chunks.len() == 0 {
        Seq::empty()
    } else {
        flattened(chunks.drop_last()) + chunks.last()
    }
}

/// What is kept of a pipe is the start of what it delivered, as much as the maximum allows,
/// and it is known whether anything is missing.
pub proof fn law_captured_output_is_a_prefix(maximum: usize, chunks: Seq<Seq<u8>>)
    ensures
        ({
            let start = PipeView {
                retained: Seq::empty(),
                maximum,
                truncated: false,
                eof: false,
            };
            let pipe = drained_all(start, chunks);
            let all = flattened(chunks);
            &&& pipe.maximum == maximum
            &&& pipe.retained == all.take(
                if all.len() <= maximum {
                    all.len() as int
                } else {
                    maximum as int
                },
            )
            &&& pipe.truncated == (all.len() > maximum)
        }),
    decreases chunks.len(),
{
    let start = PipeView { retained: Seq::empty(), maximum, truncated: false, eof: false };
    if chunks.len() > 0 {
        law_captured_output_is_a_prefix(maximum, chunks.drop_last());
        let earlier = drained_all(start, chunks.drop_last());
        let past = flattened(chunks.drop_last());
        let all = flattened(chunks);
        let pipe = drained_all(start, chunks);
        let kept = if all.len() <= maximum {
            all.len() as int
        } else {
            maximum as int
        };
        assert(pipe.retained =~= all.take(kept));
    } else {
        assert(flattened(chunks).take(0) =~= Seq::<u8>::empty());
    }
}

/// How long the pipes of a process may stay open once it is being cleaned up.
pub const OUTPUT_CLEANUP_TIMEOUT_MS: u64 = 250;

/// Watches over a running process.
#[derive(Debug, Clone, Copy, PartialEq, Eq)]
pub struct Supervision {
    pub exited: bool,
    pub cleaning: bool,
    pub timed_out: bool,
    pub cancelled: bool,
}

/// What is to be done with a running process.
#[derive(Debug, Clone, Copy, PartialEq, Eq)]
pub enum Verdict {
    /// Look again in a moment.
    Wait,
    /// The process has ended, and its output is complete or given up.
    Done,
    /// The process cannot be ended.
    Stuck,
}

/// The supervision after a look at the process. Cleaning up begins once, when the process
/// has exited, was cancelled or is out of time, in this order of precedence.
pub open spec fn observed(
    watch: Supervision,
    exited: bool,
    cancelled: bool,
    elapsed_ms: u64,
    timeout_ms: u64,
) -> Supervision {
    let gone = watch.exited || exited;
    let allowed = if timeout_ms == 0 {
        1
    } else {
        timeout_ms as int
    };
    if watch.cleaning || !(gone || cancelled || elapsed_ms >= allowed) {
        Supervision { exited: gone, ..watch }
    } else {
        Supervision {
            exited: gone,
            cleaning: true,
            timed_out: !gone && !cancelled,
            cancelled,
        }
    }
}

/// What is to be done, given whether both pipes were closed and how long the cleaning up
/// has taken.
pub open spec fn verdict_of(watch: Supervision, closed_pipes: bool, cleaning_ms: u64) -> Verdict {
    if watch.exited && closed_pipes {
        Verdict::Done
    } else if watch.cleaning && cleaning_ms >= OUTPUT_CLEANUP_TIMEOUT_MS {
        if watch.exited {
            Verdict::Done
        } else {
            Verdict::Stuck
        }
    } else {
        Verdict::Wait
    }
}

impl Supervision {
    pub fn new() -> (watch: Self)
        ensures
            watch == (Supervision {
                exited: false,
                cleaning: false,
                timed_out: false,
                cancelled: false,
            }),
    {
        Supervision { exited: false, cleaning: false, timed_out: false, cancelled: false }
    }

    /// Takes a look at the process. The answer is whether its group is to be killed now.
    pub fn observe(&mut self, exited: bool, cancelled: bool, elapsed_ms: u64, timeout_ms: u64) -> (kill:
        bool)
        ensures
            *final(self) == observed(*old(self), exited, cancelled, elapsed_ms, timeout_ms),
            kill == (!old(self).cleaning && final(self).cleaning),
    {
        if exited {
            self.exited = true;
        }
        let mut allowed: u64 = timeout_ms;
        if allowed == 0 {
            allowed = 1;
        }
        if !self.cleaning && (self.exited || cancelled || elapsed_ms >= allowed) {
            self.cancelled = cancelled;
            self.timed_out = !self.exited && !cancelled;
            self.cleaning = true;
            return true;
        }
        false
    }

    /// What is to be done now.
    pub fn decide(&self, closed_pipes: bool, cleaning_ms: u64) -> (verdict: Verdict)
        ensures
            verdict == verdict_of(*self, closed_pipes, cleaning_ms),
    {
        if self.exited && closed_pipes {
            return Verdict::Done;
        }
        if self.cleaning && cleaning_ms >= OUTPUT_CLEANUP_TIMEOUT_MS {
            if self.exited {
                return Verdict::Done;
            }
            return Verdict::Stuck;
        }
        Verdict::Wait
    }

    /// Whether the pipes of an ended process are read to their end, where somebody else
    /// reads them. They are given up after a while.
    pub fn await_pipes(&self, closed_pipes: bool, cleaning_ms: u64) -> (closed: Result<
        bool,
        ProcessError,
    >)
        ensures
            match closed {
                Ok(done) => done == closed_pipes && (closed_pipes || cleaning_ms
                    < OUTPUT_CLEANUP_TIMEOUT_MS),
                Err(error) => !closed_pipes && cleaning_ms >= OUTPUT_CLEANUP_TIMEOUT_MS && error@
                    == ProcessErrorView::Io(
                    "output pipes did not close within the cleanup deadline"@,
                ),
            },
    {
        if closed_pipes {
            return Ok(true);
        }
        if cleaning_ms >= OUTPUT_CLEANUP_TIMEOUT_MS {
            return Err(
                ProcessError::Io(
                    "output pipes did not close within the cleanup deadline".to_owned(),
                ),
            );
        }
        Ok(false)
    }

    /// The failure of a process that cannot be ended.
    pub fn stuck(&self) -> (error: ProcessError)
        ensures
            error@ == ProcessErrorView::Io("process did not exit within the cleanup deadline"@),
    {
        ProcessError::Io("process did not exit within the cleanup deadline".to_owned())
    }

    /// What the process left behind, once it was reaped.
    pub fn output(
        &self,
        exit_code: Option<i32>,
        stdout: &CapturedPipe,
        stderr: &CapturedPipe,
    ) -> (output: Result<ProcessOutput, ProcessError>)
        ensures
            res_view(output) == output_of(*self, exit_code, stdout@, stderr@),
    {
        if self.cancelled {
            return Err(ProcessError::Cancelled);
        }
        Ok(
            ProcessOutput {
                exit_code,
                stdout: decode_lossy(&stdout.retained),
                stderr: decode_lossy(&stderr.retained),
                timed_out: self.timed_out,
                stdout_truncated: stdout.truncated || !stdout.eof,
                stderr_truncated: stderr.truncated || !stderr.eof,
            },
        )
    }
}

/// What a supervised process left behind. A cancelled one leaves nothing: its outcome is
/// unknown.
pub open spec fn output_of(
    watch: Supervision,
    exit_code: Option<i32>,
    stdout: PipeView,
    stderr: PipeView,
) -> Result<ProcessOutputView, ProcessErrorView> {
    if watch.cancelled {
        Err(ProcessErrorView::Cancelled)
    } else {
        Ok(
            ProcessOutputView {
                exit_code,
                stdout: lossy_text(stdout.retained),
                stderr: lossy_text(stderr.retained),
                timed_out: watch.timed_out,
                stdout_truncated: stdout.truncated || !stdout.eof,
                stderr_truncated: stderr.truncated || !stderr.eof,
            },
        )
    }
}

/// The answer to a command: cancellation is reported whatever the process left behind.
pub fn conclude_command(cancelled: bool, result: Result<ProcessOutput, ProcessError>) -> (answer:
    Result<ProcessOutput, ProcessError>)
    ensures
        res_view(answer) == ran_plainly(res_view(result), cancelled),
{
    if cancelled {
        Err(ProcessError::Cancelled)
    } else {
        result
    }
}

/// A process is killed at most once, a supervised process never stops being cleaned up, and
/// exactly one of exit, cancellation and timeout is why.
pub proof fn law_cleanup_begins_once(
    watch: Supervision,
    exited: bool,
    cancelled: bool,
    elapsed_ms: u64,
    timeout_ms: u64,
)
    ensures
        ({
            let after = observed(watch, exited, cancelled, elapsed_ms, timeout_ms);
            &&& (watch.cleaning ==> after.cleaning && after.cancelled == watch.cancelled
                && after.timed_out == watch.timed_out)
            &&& (watch.exited ==> after.exited)
            &&& (!watch.cleaning && after.cleaning ==> !(after.timed_out && after.cancelled) && (
            after.exited || after.timed_out || after.cancelled))
        }),
{
}

// ---------------------------------------------------------------------------
// Paths of the workspace
// ---------------------------------------------------------------------------

/// The segments of a path between its slashes.
pub open spec fn segments_of(path: Seq<char>) -> Seq<Seq<char>>
    decreases path.len(),
{
    if path.len() == 0 {
        seq![Seq::empty()]
    } else {
        let earlier = segments_of(path.drop_last());
        if path.last() == '/' {
            earlier.push(Seq::empty())
        } else {
            earlier.drop_last().push(earlier.last().push(path.last()))
        }
    }
}

/// Whether a path is relative and never leaves the directory that it starts in: it is not
/// empty, does not begin with a slash or a dot segment, and has no `..`.
pub open spec fn relative_path(path: Seq<char>) -> bool {
    let segments = segments_of(path);
    &&& path.len() > 0
    &&& segments[0].len() > 0
    &&& segments[0] != "."@
    &&& forall|i: int| 0 <= i < segments.len() ==> (#[trigger] segments[i]) != ".."@
}

/// The names in a path: its segments without empty ones and dots.
pub open spec fn names_of(segments: Seq<Seq<char>>) -> Seq<Seq<char>>
    decreases segments.len(),
{
    if segments.len() == 0 {
        Seq::empty()
    } else {
        let earlier = names_of(segments.drop_last());
        if segments.last().len() == 0 || segments.last() == "."@ {
            earlier
        } else {
            earlier.push(segments.last())
        }
    }
}

/// A path inside a directory.
pub open spec fn joined_path(directory: PathView, path: Seq<char>) -> PathView {
    PathView {
        shown: if directory.shown.len() > 0 && directory.shown.last() == '/' {
            directory.shown + path
        } else {
            directory.shown + "/"@ + path
        },
        components: directory.components + names_of(segments_of(path)),
    }
}

proof fn lemma_segments_nonempty(path: Seq<char>)
    ensures
        segments_of(path).len() > 0,
    decreases path.len(),
{
    if path.len() > 0 {
        lemma_segments_nonempty(path.drop_last());
    }
}

fn split_path(path: &str) -> (segments: Vec<String>)
    ensures
        views(segments@) == segments_of(path@),
        segments@.len() > 0,
{
    let chars = chars_of(path);
    let mut segments: Vec<String> = Vec::new();
    let mut current = String::new();
    let mut at: usize = 0;
    proof {
        assert(path@.take(0) =~= Seq::empty());
        assert(current@ =~= Seq::<char>::empty());
        assert(views(segments@).push(current@) =~= segments_of(path@.take(0)));
    }
    while at < chars.len()
        invariant
            at <= chars@.len(),
            chars@ == path@,
            views(segments@).push(current@) == segments_of(path@.take(at as int)),
        decreases chars@.len() - at,
    {
        let c = chars[at];
        let ghost before = views(segments@);
        let ghost earlier = segments_of(path@.take(at as int));
        proof {
            let grown = path@.take(at as int + 1);
            assert(grown.drop_last() =~= path@.take(at as int));
            assert(grown.last() == c);
            assert(earlier.drop_last() =~= before);
            assert(earlier.last() == current@);
        }
        if c == '/' {
            let mut next = String::new();
            std::mem::swap(&mut next, &mut current);
            proof {
                lemma_views_push(segments@, next);
                assert(current@ =~= Seq::<char>::empty());
            }
            segments.push(next);
            assert(views(segments@).push(current@) =~= earlier.push(Seq::empty()));
        } else {
            current.push(c);
            assert(views(segments@).push(current@) =~= earlier.drop_last().push(
                earlier.last().push(c),
            ));
        }
        at = at + 1;
    }
    proof {
        assert(path@.take(at as int) =~= path@);
        lemma_views_push(segments@, current);
    }
    segments.push(current);
    segments
}

fn list_names(segments: &Vec<String>) -> (names: Vec<String>)
    ensures
        views(names@) == names_of(views(segments@)),
{
    let ghost all = views(segments@);
    let mut names: Vec<String> = Vec::new();
    let mut at: usize = 0;
    assert(all.take(0) =~= Seq::empty());
    assert(views(names@) =~= names_of(all.take(0)));
    while at < segments.len()
        invariant
            at <= segments@.len(),
            all == views(segments@),
            views(names@) == names_of(all.take(at as int)),
        decreases segments@.len() - at,
    {
        proof {
            let grown = all.take(at as int + 1);
            assert(grown.drop_last() =~= all.take(at as int));
            assert(grown.last() == segments@[at as int]@);
        }
        if segments[at].as_str().unicode_len() > 0 && !same_text(segments[at].as_str(), ".") {
            let name = segments[at].clone();
            proof {
                lemma_views_push(names@, name);
            }
            names.push(name);
        }
        at = at + 1;
    }
    assert(all.take(at as int) =~= all);
    names
}

/// The refusal of a path.
pub open spec fn unsafe_path() -> ToolErrorView {
    ToolErrorView::InvalidArguments("path must be a non-empty relative path without `..`"@)
}

/// Whether a requested path may be looked up in the workspace.
pub fn validate_relative(path: &str) -> (done: Result<(), ToolError>)
    ensures
        done_view(done) == (if relative_path(path@) {
            Ok(())
        } else {
            Err(unsafe_path())
        }),
{
    let segments = split_path(path);
    let ghost all = segments_of(path@);
    assert(all.len() == segments@.len());
    assert(all[0] == segments@[0]@);
    if path.unicode_len() == 0 || segments[0].as_str().unicode_len() == 0 || same_text(
        segments[0].as_str(),
        ".",
    ) {
        return Err(
            ToolError::InvalidArguments(
                "path must be a non-empty relative path without `..`".to_owned(),
            ),
        );
    }
    let mut at: usize = 0;
    while at < segments.len()
        invariant
            at <= segments@.len(),
            all == views(segments@),
            all == segments_of(path@),
            path@.len() > 0,
            all.len() > 0,
            all[0].len() > 0,
            all[0] != "."@,
            forall|i: int| 0 <= i < at ==> (#[trigger] all[i]) != ".."@,
        decreases segments@.len() - at,
    {
        assert(all[at as int] == segments@[at as int]@);
        if same_text(segments[at].as_str(), "..") {
            return Err(
                ToolError::InvalidArguments(
                    "path must be a non-empty relative path without `..`".to_owned(),
                ),
            );
        }
        at = at + 1;
    }
    Ok(())
}

/// A path inside a directory.
pub fn join_path(directory: &ResolvedPath, path: &str) -> (joined: ResolvedPath)
    ensures
        joined@ == joined_path(directory@, path@),
{
    let base = chars_of(directory.shown.as_str());
    let shown = if base.len() > 0 && base[base.len() - 1] == '/' {
        directory.shown.clone().concat(path)
    } else {
        directory.shown.clone().concat("/").concat(path)
    };
    let mut components = snapshot_all(&directory.components);
    let mut names = list_names(&split_path(path));
    proof {
        lemma_views_concat(components@, names@);
    }
    components.append(&mut names);
    ResolvedPath { shown, components }
}

/// A file that may be read, as the host resolved it, or why it may not.
pub open spec fn readable_file(
    workspace: PathView,
    resolved: Result<PathView, Seq<char>>,
    is_file: bool,
) -> Result<PathView, ToolErrorView> {
    match resolved {
        Err(message) => Err(ToolErrorView::InvalidArguments(message)),
        Ok(path) => if lies_in(path.components, workspace.components) && is_file {
            Ok(path)
        } else {
            Err(ToolErrorView::InvalidArguments("path is not a file inside the workspace"@))
        },
    }
}

fn resolve_existing_file(
    workspace: &ResolvedPath,
    resolved: Result<ResolvedPath, String>,
    is_file: bool,
) -> (file: Result<ResolvedPath, ToolError>)
    ensures
        res_view(file) == readable_file(workspace@, resolved_view(resolved), is_file),
{
    match resolved {
        Err(message) => Err(ToolError::InvalidArguments(message)),
        Ok(path) => {
            if !is_inside(&path.components, &workspace.components) || !is_file {
                return Err(
                    ToolError::InvalidArguments(
                        "path is not a file inside the workspace".to_owned(),
                    ),
                );
            }
            Ok(path)
        },
    }
}

/// What the host found at a path: nothing, or what it resolves to.
#[derive(Debug)]
pub struct PathProbe {
    pub present: bool,
    pub resolved: Result<ResolvedPath, String>,
}

/// The model of [`PathProbe`].
#[verifier::ext_equal]
pub ghost struct PathProbeView {
    pub present: bool,
    pub resolved: Result<PathView, Seq<char>>,
}

impl View for PathProbe {
    type V = PathProbeView;

    open spec fn view(&self) -> PathProbeView {
        PathProbeView { present: self.present, resolved: resolved_view(self.resolved) }
    }
}

/// Why a path that exists may not be written through, if it may not.
pub open spec fn probe_refusal(
    workspace: PathView,
    probe: PathProbeView,
    complaint: Seq<char>,
) -> Option<ToolErrorView> {
    match probe.resolved {
        Err(message) => Some(ToolErrorView::InvalidArguments(message)),
        Ok(path) => if lies_in(path.components, workspace.components) {
            None
        } else {
            Some(ToolErrorView::InvalidArguments(complaint))
        },
    }
}

/// The refusal of the nearest directory that exists above a target, from `at` on.
pub open spec fn ancestor_refusal(
    workspace: PathView,
    ancestors: Seq<PathProbeView>,
    at: int,
) -> Option<ToolErrorView>
    decreases ancestors.len() - at,
{
    if at < 0 || at >= ancestors.len() {
        None
    } else if ancestors[at].present {
        probe_refusal(
            workspace,
            ancestors[at],
            "write target traverses a symlink outside the workspace"@,
        )
    } else {
        ancestor_refusal(workspace, ancestors, at + 1)
    }
}

/// Why a target may not be written, if it may not. `ancestors` are the directories above
/// it, the nearest first.
pub open spec fn write_refusal(
    workspace: PathView,
    target: PathView,
    ancestors: Seq<PathProbeView>,
    existing: PathProbeView,
) -> Option<ToolErrorView> {
    if !lies_in(target.components, workspace.components) {
        Some(ToolErrorView::InvalidArguments("write target is outside the workspace"@))
    } else {
        match ancestor_refusal(workspace, ancestors, 0) {
            Some(error) => Some(error),
            None => if existing.present {
                probe_refusal(
                    workspace,
                    existing,
                    "write target resolves outside the workspace"@,
                )
            } else {
                None
            },
        }
    }
}

fn check_probe(workspace: &ResolvedPath, probe: &PathProbe, complaint: &str) -> (done: Result<
    (),
    ToolError,
>)
    ensures
        match done {
            Ok(()) => probe_refusal(workspace@, probe@, complaint@) is None,
            Err(error) => probe_refusal(workspace@, probe@, complaint@) == Some(error@),
        },
{
    match &probe.resolved {
        Err(message) => Err(ToolError::InvalidArguments(message.clone())),
        Ok(path) => {
            if is_inside(&path.components, &workspace.components) {
                Ok(())
            } else {
                Err(ToolError::InvalidArguments(complaint.to_owned()))
            }
        },
    }
}

/// Whether a target may be written.
pub fn verify_write_target(
    workspace: &ResolvedPath,
    target: &ResolvedPath,
    ancestors: &Vec<PathProbe>,
    existing: &PathProbe,
) -> (done: Result<(), ToolError>)
    ensures
        match done {
            Ok(()) => write_refusal(workspace@, target@, views(ancestors@), existing@) is None,
            Err(error) => write_refusal(workspace@, target@, views(ancestors@), existing@) == Some(
                error@,
            ),
        },
{
    if !is_inside(&target.components, &workspace.components) {
        return Err(ToolError::InvalidArguments("write target is outside the workspace".to_owned()));
    }
    let ghost all = views(ancestors@);
    let mut at: usize = 0;
    while at < ancestors.len() && !ancestors[at].present
        invariant
            at <= ancestors@.len(),
            all == views(ancestors@),
            all.len() == ancestors@.len(),
            ancestor_refusal(workspace@, all, 0) == ancestor_refusal(workspace@, all, at as int),
        decreases ancestors@.len() - at,
    {
        assert(all[at as int] == ancestors@[at as int]@);
        at = at + 1;
    }
    if at < ancestors.len() {
        assert(all[at as int] == ancestors@[at as int]@);
        match check_probe(
            workspace,
            &ancestors[at],
            "write target traverses a symlink outside the workspace",
        ) {
            Ok(()) => {},
            Err(error) => {
                return Err(error);
            },
        }
    }
    if existing.present {
        return check_probe(workspace, existing, "write target resolves outside the workspace");
    }
    Ok(())
}

// ---------------------------------------------------------------------------
// Tools
// ---------------------------------------------------------------------------

/// A text argument, or why it is none.
pub open spec fn text_argument(arguments: JsonView, name: Seq<char>) -> Result<
    Seq<char>,
    ToolErrorView,
> {
    match text_member(arguments, name) {
        Some(text) => Ok(text),
        None => Err(ToolErrorView::InvalidArguments("`"@ + name + "` must be a string"@)),
    }
}

fn string_argument<'a>(arguments: &'a Json, name: &str) -> (text: Result<&'a String, ToolError>)
    ensures
        match text {
            Ok(found) => text_argument(arguments@, name@) == Ok::<Seq<char>, ToolErrorView>(
                found@,
            ),
            Err(error) => text_argument(arguments@, name@) == Err::<Seq<char>, ToolErrorView>(
                error@,
            ),
        },
{
    match get_text(arguments, name) {
        Some(text) => Ok(text),
        None => Err(
            ToolError::InvalidArguments("`".to_owned().concat(name).concat("` must be a string")),
        ),
    }
}

/// Whether an argument is set.
pub open spec fn flag_argument(arguments: JsonView, name: Seq<char>) -> bool {
    member(arguments, name) == Some(JsonView::Bool(true))
}

fn bool_argument(arguments: &Json, name: &str) -> (set: bool)
    ensures
        set == flag_argument(arguments@, name@),
{
    match arguments.get(name) {
        Some(Json::Bool(value)) => *value,
        _ => false,
    }
}

/// The schema of one argument.
pub open spec fn typed(kind: Seq<char>) -> JsonView {
    JsonView::Object(bare_object().insert("type"@, JsonView::Text(kind)))
}

fn make_typed(kind: &str) -> (json: Json)
    ensures
        json@ == typed(kind@),
{
    Json::Object(with_member(no_members(), "type", text_json(kind)))
}

/// The schema of a tool's arguments.
pub open spec fn schema_of(
    properties: Map<Seq<char>, JsonView>,
    required: Seq<Seq<char>>,
) -> JsonView {
    JsonView::Object(
        bare_object().insert("type"@, JsonView::Text("object"@)).insert(
            "properties"@,
            JsonView::Object(properties),
        ).insert(
            "required"@,
            JsonView::Array(required.map_values(|name: Seq<char>| JsonView::Text(name))),
        ).insert("additionalProperties"@, JsonView::Bool(false)),
    )
}

fn make_schema(properties: Keyed<Json>, required: &Vec<String>) -> (json: Json)
    ensures
        json@ == schema_of(object_view(properties), views(required@)),
{
    Json::Object(
        with_member(
            with_member(
                with_member(
                    with_member(no_members(), "type", text_json("object")),
                    "properties",
                    Json::Object(properties),
                ),
                "required",
                text_array(required),
            ),
            "additionalProperties",
            Json::Bool(false),
        ),
    )
}

/// What the model is told of the shell.
pub open spec fn shell_definition() -> ToolDefinitionView {
    ToolDefinitionView {
        name: "shell"@,
        description: "Run a shell command in the configured execution backend"@,
        input_schema: schema_of(
            bare_object().insert("command"@, typed("string"@)).insert(
                "timeout_ms"@,
                JsonView::Object(
                    bare_object().insert("type"@, JsonView::Text("integer"@)).insert(
                        "minimum"@,
                        JsonView::Integer(1),
                    ),
                ),
            ),
            seq!["command"@],
        ),
    }
}

/// What the model is told of reading files.
pub open spec fn read_file_definition() -> ToolDefinitionView {
    ToolDefinitionView {
        name: "read_file"@,
        description: "Read a UTF-8 file inside the workspace"@,
        input_schema: schema_of(
            bare_object().insert("path"@, typed("string"@)),
            seq!["path"@],
        ),
    }
}

/// What the model is told of writing files.
pub open spec fn write_file_definition() -> ToolDefinitionView {
    ToolDefinitionView {
        name: "write_file"@,
        description: "Write a UTF-8 file inside the workspace"@,
        input_schema: schema_of(
            bare_object().insert("path"@, typed("string"@)).insert(
                "content"@,
                typed("string"@),
            ).insert("create_directories"@, typed("boolean"@)),
            seq!["path"@, "content"@],
        ),
    }
}

/// Runs shell commands.
#[derive(Debug)]
pub struct ShellTool {
    workspace: ResolvedPath,
    maximum_timeout_ms: u64,
}

/// A time limit between one millisecond and the maximum.
pub open spec fn clamped(value: u64, maximum: u64) -> u64 {
    if value < 1 {
        1
    } else if value > maximum {
        maximum
    } else {
        value
    }
}

/// The arguments of a prepared shell command.
pub open spec fn shell_arguments(
    command: Seq<char>,
    directory: Seq<char>,
    timeout_ms: u64,
) -> JsonView {
    triple_object(
        "command"@,
        JsonView::Text(command),
        "working_directory"@,
        JsonView::Text(directory),
        "timeout_ms"@,
        JsonView::Integer(timeout_ms as int),
    )
}

/// A prepared call of a tool in a workspace.
pub open spec fn workspace_action(
    call: ToolCallView,
    name: Seq<char>,
    arguments: JsonView,
    effect: EffectKind,
    retry_safety: RetrySafety,
    workspace: PathView,
) -> PreparedToolCallView {
    PreparedToolCallView {
        call_id: call.id,
        action: CanonicalActionView {
            tool_name: name,
            arguments,
            effect,
            retry_safety,
            scope: Some(workspace.shown),
        },
    }
}

/// The prepared shell command of a call, or why there is none.
pub open spec fn prepared_shell(
    call: ToolCallView,
    workspace: PathView,
    maximum: u64,
) -> Result<PreparedToolCallView, ToolErrorView> {
    match text_argument(call.arguments, "command"@) {
        Err(error) => Err(error),
        Ok(command) => if blank(command) {
            Err(ToolErrorView::InvalidArguments("`command` cannot be empty"@))
        } else {
            let asked = match unsigned_member(call.arguments, "timeout_ms"@) {
                Some(value) => value,
                None => 30_000,
            };
            Ok(
                workspace_action(
                    call,
                    "shell"@,
                    shell_arguments(command, workspace.shown, clamped(asked, maximum)),
                    EffectKind::WorkspaceWrite,
                    RetrySafety::Unsafe,
                    workspace,
                ),
            )
        },
    }
}

/// The request that arguments hold, if they are an object with its members.
pub open spec fn request_of(arguments: JsonView) -> Option<ProcessRequestView> {
    match (
        text_member(arguments, "command"@),
        text_member(arguments, "working_directory"@),
        unsigned_member(arguments, "timeout_ms"@),
    ) {
        (Some(command), Some(working_directory), Some(timeout_ms)) => Some(
            ProcessRequestView { command, working_directory, timeout_ms },
        ),
        _ => None,
    }
}

/// The value that describes what a process left behind.
pub open spec fn output_value(output: ProcessOutputView) -> JsonView {
    JsonView::Object(
        bare_object().insert(
            "exit_code"@,
            match output.exit_code {
                Some(code) => JsonView::Integer(code as int),
                None => JsonView::Null,
            },
        ).insert("stdout"@, JsonView::Text(output.stdout)).insert(
            "stderr"@,
            JsonView::Text(output.stderr),
        ).insert("timed_out"@, JsonView::Bool(output.timed_out)).insert(
            "stdout_truncated"@,
            JsonView::Bool(output.stdout_truncated),
        ).insert("stderr_truncated"@, JsonView::Bool(output.stderr_truncated)),
    )
}

/// The outcome of a shell command. After a cancellation it is unknown.
pub open spec fn shell_outcome(result: Result<ProcessOutputView, ProcessErrorView>) -> Result<
    JsonView,
    ToolErrorView,
> {
    match result {
        Ok(output) => Ok(output_value(output)),
        Err(error) => match error {
            ProcessErrorView::Cancelled => Err(
                ToolErrorView::OutcomeUnknown(process_error_text(error)),
            ),
            _ => Err(ToolErrorView::Execution(process_error_text(error))),
        },
    }
}

fn prepare_action(
    call: &ToolCall,
    name: &str,
    arguments: Json,
    effect: EffectKind,
    retry_safety: RetrySafety,
    workspace: &ResolvedPath,
) -> (prepared: PreparedToolCall)
    ensures
        prepared@ == workspace_action(
            call@,
            name@,
            arguments@,
            effect,
            retry_safety,
            workspace@,
        ),
{
    PreparedToolCall {
        call_id: call.id.clone(),
        action: CanonicalAction::new(name.to_owned(), arguments, effect, retry_safety).in_scope(
            workspace.shown.clone(),
        ),
    }
}

impl Clone for ShellTool {
    fn clone(&self) -> (copy: Self)
        ensures
            copy.root() == self.root(),
            copy.limit() == self.limit(),
    {
        proof {
            use_type_invariant(self);
        }
        ShellTool {
            workspace: self.workspace.clone(),
            maximum_timeout_ms: self.maximum_timeout_ms,
        }
    }
}

impl ShellTool {
    #[verifier::type_invariant]
    spec fn limited(self) -> bool {
        self.maximum_timeout_ms >= 1
    }

    pub closed spec fn root(&self) -> PathView {
        self.workspace@
    }

    /// The longest time that a command may take.
    pub closed spec fn limit(&self) -> u64 {
        self.maximum_timeout_ms
    }

    /// A shell in a workspace that the host resolved.
    pub fn new(workspace: Result<ResolvedPath, String>, is_directory: bool) -> (tool: Result<
        Self,
        ProcessError,
    >)
        ensures
            match tool {
                Ok(found) => directory_of(resolved_view(workspace), is_directory) == Ok::<
                    PathView,
                    ProcessErrorView,
                >(found.root()) && found.limit() == 120_000,
                Err(error) => directory_of(resolved_view(workspace), is_directory) == Err::<
                    PathView,
                    ProcessErrorView,
                >(error@),
            },
    {
        match canonical_directory(workspace, is_directory) {
            Ok(workspace) => Ok(ShellTool { workspace, maximum_timeout_ms: 120_000 }),
            Err(error) => Err(error),
        }
    }

    pub fn with_maximum_timeout_ms(self, maximum: u64) -> (tool: Self)
        ensures
            tool.root() == self.root(),
            tool.limit() == (if maximum == 0 {
                1
            } else {
                maximum
            }),
    {
        let mut limit: u64 = maximum;
        if limit == 0 {
            limit = 1;
        }
        ShellTool { workspace: self.workspace, maximum_timeout_ms: limit }
    }

    /// What the model is told of the tool.
    pub fn definition(&self) -> (definition: ToolDefinition)
        ensures
            definition@ == shell_definition(),
    {
        let timeout = Json::Object(
            with_member(
                with_member(no_members(), "type", text_json("integer")),
                "minimum",
                Json::Unsigned(1),
            ),
        );
        let properties = with_member(
            with_member(no_members(), "command", make_typed("string")),
            "timeout_ms",
            timeout,
        );
        let mut required: Vec<String> = Vec::new();
        required.push("command".to_owned());
        assert(views(required@) =~= seq!["command"@]);
        ToolDefinition::new(
            "shell".to_owned(),
            "Run a shell command in the configured execution backend".to_owned(),
            make_schema(properties, &required),
        )
    }

    /// Resolves a call to the command that it asks for.
    pub fn prepare(&self, call: &ToolCall) -> (prepared: Result<PreparedToolCall, ToolError>)
        ensures
            res_view(prepared) == prepared_shell(call@, self.root(), self.limit()),
    {
        proof {
            use_type_invariant(self);
        }
        let command = match string_argument(&call.arguments, "command") {
            Ok(command) => command,
            Err(error) => {
                return Err(error);
            },
        };
        if is_blank(command.as_str()) {
            return Err(ToolError::InvalidArguments("`command` cannot be empty".to_owned()));
        }
        let mut timeout_ms: u64 = match get_unsigned(&call.arguments, "timeout_ms") {
            Some(value) => value,
            None => 30_000,
        };
        if timeout_ms < 1 {
            timeout_ms = 1;
        } else if timeout_ms > self.maximum_timeout_ms {
            timeout_ms = self.maximum_timeout_ms;
        }
        let arguments = make_triple(
            "command",
            text_json(command.as_str()),
            "working_directory",
            text_json(self.workspace.shown.as_str()),
            "timeout_ms",
            Json::Unsigned(timeout_ms),
        );
        Ok(
            prepare_action(
                call,
                "shell",
                arguments,
                EffectKind::WorkspaceWrite,
                RetrySafety::Unsafe,
                &self.workspace,
            ),
        )
    }

    /// The request of a prepared command, if its arguments are those of a request.
    pub fn request(&self, prepared: &PreparedToolCall) -> (request: Option<ProcessRequest>)
        ensures
            opt_view(request) == request_of(prepared@.action.arguments),
    {
        let arguments = &prepared.action.arguments;
        match (
            get_text(arguments, "command"),
            get_text(arguments, "working_directory"),
            get_unsigned(arguments, "timeout_ms"),
        ) {
            (Some(command), Some(directory), Some(timeout_ms)) => Some(
                ProcessRequest {
                    command: command.clone(),
                    working_directory: directory.clone(),
                    timeout_ms,
                },
            ),
            _ => None,
        }
    }

    /// The outcome of a command.
    pub fn outcome(&self, result: Result<ProcessOutput, ProcessError>) -> (output: Result<
        ToolOutput,
        ToolError,
    >)
        ensures
            match output {
                Ok(found) => shell_outcome(res_view(result)) == Ok::<JsonView, ToolErrorView>(
                    found@.value,
                ),
                Err(error) => shell_outcome(res_view(result)) == Err::<JsonView, ToolErrorView>(
                    error@,
                ),
            },
    {
        match result {
            Ok(output) => {
                let code = match output.exit_code {
                    Some(code) => if code >= 0 {
                        Json::Unsigned(code as u64)
                    } else {
                        Json::Negative(code as i64)
                    },
                    None => Json::Null,
                };
                let value = Json::Object(
                    with_member(
                        with_member(
                            with_member(
                                with_member(
                                    with_member(
                                        with_member(no_members(), "exit_code", code),
                                        "stdout",
                                        text_json(output.stdout.as_str()),
                                    ),
                                    "stderr",
                                    text_json(output.stderr.as_str()),
                                ),
                                "timed_out",
                                Json::Bool(output.timed_out),
                            ),
                            "stdout_truncated",
                            Json::Bool(output.stdout_truncated),
                        ),
                        "stderr_truncated",
                        Json::Bool(output.stderr_truncated),
                    ),
                );
                Ok(ToolOutput { value })
            },
            Err(error) => {
                let text = error.to_text();
                match error {
                    ProcessError::Cancelled => Err(ToolError::OutcomeUnknown(text)),
                    _ => Err(ToolError::Execution(text)),
                }
            },
        }
    }
}

/// Reads files of the workspace.
#[derive(Debug)]
pub struct ReadFileTool {
    workspace: ResolvedPath,
    maximum_bytes: usize,
}

/// What a prepared read asks for.
#[derive(Debug, PartialEq, Eq)]
pub struct ReadRequest {
    pub path: String,
    pub maximum_bytes: usize,
}

/// The prepared read of a call, or why there is none. The path is looked at before the
/// file.
pub open spec fn prepared_read(
    call: ToolCallView,
    workspace: PathView,
    maximum: usize,
    resolved: Result<PathView, Seq<char>>,
    is_file: bool,
) -> Result<PreparedToolCallView, ToolErrorView> {
    match text_argument(call.arguments, "path"@) {
        Err(error) => Err(error),
        Ok(requested) => if !relative_path(requested) {
            Err(unsafe_path())
        } else {
            match readable_file(workspace, resolved, is_file) {
                Err(error) => Err(error),
                Ok(path) => Ok(
                    workspace_action(
                        call,
                        "read_file"@,
                        pair_object(
                            "path"@,
                            JsonView::Text(path.shown),
                            "maximum_bytes"@,
                            JsonView::Integer(maximum as int),
                        ),
                        EffectKind::ReadOnly,
                        RetrySafety::Safe,
                        workspace,
                    ),
                ),
            }
        },
    }
}

/// What a prepared read asks for, or why it is not done.
pub open spec fn read_request_of(action: CanonicalActionView) -> Result<
    (Seq<char>, usize),
    ToolErrorView,
> {
    match text_argument(action.arguments, "path"@) {
        Err(error) => Err(error),
        Ok(path) => match unsigned_member(action.arguments, "maximum_bytes"@) {
            Some(maximum) => if maximum <= usize::MAX {
                Ok((path, maximum as usize))
            } else {
                Err(ToolErrorView::Execution("invalid maximum_bytes"@))
            },
            None => Err(ToolErrorView::Execution("invalid maximum_bytes"@)),
        },
    }
}

/// The outcome of a read. `bytes` is the start of the file, with at least one byte more
/// than the maximum where the file is longer.
pub open spec fn read_outcome(path: Seq<char>, bytes: Seq<u8>, maximum: usize) -> Result<
    JsonView,
    ToolErrorView,
> {
    if bytes.len() > maximum {
        Err(
            ToolErrorView::Execution(
                "file exceeds "@ + decimal_of(maximum as nat) + " byte limit"@,
            ),
        )
    } else if !valid_utf8(bytes) {
        Err(ToolErrorView::Execution("file is not valid UTF-8"@))
    } else {
        Ok(
            pair_object(
                "path"@,
                JsonView::Text(path),
                "content"@,
                JsonView::Text(decode_utf8(bytes)),
            ),
        )
    }
}

impl Clone for ReadFileTool {
    fn clone(&self) -> (copy: Self)
        ensures
            copy.root() == self.root(),
            copy.limit() == self.limit(),
    {
        ReadFileTool { workspace: self.workspace.clone(), maximum_bytes: self.maximum_bytes }
    }
}

impl ReadFileTool {
    pub closed spec fn root(&self) -> PathView {
        self.workspace@
    }

    /// The greatest size of a file that is read.
    pub closed spec fn limit(&self) -> usize {
        self.maximum_bytes
    }

    /// A reader in a workspace that the host resolved.
    pub fn new(workspace: Result<ResolvedPath, String>, is_directory: bool) -> (tool: Result<
        Self,
        ProcessError,
    >)
        ensures
            match tool {
                Ok(found) => directory_of(resolved_view(workspace), is_directory) == Ok::<
                    PathView,
                    ProcessErrorView,
                >(found.root()) && found.limit() == 1_048_576,
                Err(error) => directory_of(resolved_view(workspace), is_directory) == Err::<
                    PathView,
                    ProcessErrorView,
                >(error@),
            },
    {
        match canonical_directory(workspace, is_directory) {
            Ok(workspace) => Ok(ReadFileTool { workspace, maximum_bytes: 1_048_576 }),
            Err(error) => Err(error),
        }
    }

    pub fn with_maximum_bytes(self, maximum: usize) -> (tool: Self)
        ensures
            tool.root() == self.root(),
            tool.limit() == (if maximum == 0 {
                1
            } else {
                maximum
            }),
    {
        let mut limit: usize = maximum;
        if limit == 0 {
            limit = 1;
        }
        ReadFileTool { workspace: self.workspace, maximum_bytes: limit }
    }

    /// What the model is told of the tool.
    pub fn definition(&self) -> (definition: ToolDefinition)
        ensures
            definition@ == read_file_definition(),
    {
        let properties = with_member(no_members(), "path", make_typed("string"));
        let mut required: Vec<String> = Vec::new();
        required.push("path".to_owned());
        assert(views(required@) =~= seq!["path"@]);
        ToolDefinition::new(
            "read_file".to_owned(),
            "Read a UTF-8 file inside the workspace".to_owned(),
            make_schema(properties, &required),
        )
    }

    /// The path that the host is to resolve for a call.
    pub fn target(&self, call: &ToolCall) -> (target: Result<ResolvedPath, ToolError>)
        ensures
            res_view(target) == (match text_argument(call@.arguments, "path"@) {
                Err(error) => Err(error),
                Ok(requested) => if relative_path(requested) {
                    Ok(joined_path(self.root(), requested))
                } else {
                    Err(unsafe_path())
                },
            }),
    {
        let requested = match string_argument(&call.arguments, "path") {
            Ok(requested) => requested,
            Err(error) => {
                return Err(error);
            },
        };
        match validate_relative(requested.as_str()) {
            Ok(()) => Ok(join_path(&self.workspace, requested.as_str())),
            Err(error) => Err(error),
        }
    }

    /// Resolves a call to the file that it asks for, as the host resolved it.
    pub fn prepare(
        &self,
        call: &ToolCall,
        resolved: Result<ResolvedPath, String>,
        is_file: bool,
    ) -> (prepared: Result<PreparedToolCall, ToolError>)
        ensures
            res_view(prepared) == prepared_read(
                call@,
                self.root(),
                self.limit(),
                resolved_view(resolved),
                is_file,
            ),
    {
        match self.target(call) {
            Ok(_) => {},
            Err(error) => {
                return Err(error);
            },
        }
        let path = match resolve_existing_file(&self.workspace, resolved, is_file) {
            Ok(path) => path,
            Err(error) => {
                return Err(error);
            },
        };
        let arguments = make_pair(
            "path",
            text_json(path.shown.as_str()),
            "maximum_bytes",
            Json::Unsigned(self.maximum_bytes as u64),
        );
        Ok(
            prepare_action(
                call,
                "read_file",
                arguments,
                EffectKind::ReadOnly,
                RetrySafety::Safe,
                &self.workspace,
            ),
        )
    }

    /// What a prepared read asks for. A cancelled turn reads nothing.
    pub fn request(&self, prepared: &PreparedToolCall, cancelled: bool) -> (request: Result<
        ReadRequest,
        ToolError,
    >)
        ensures
            cancelled ==> (request matches Err(error) && error@ == ToolErrorView::Cancelled),
            !cancelled ==> match read_request_of(prepared@.action) {
                Ok((path, maximum)) => request matches Ok(found) && found.path@ == path
                    && found.maximum_bytes == maximum,
                Err(error) => request matches Err(found) && found@ == error,
            },
    {
        if cancelled {
            return Err(ToolError::Cancelled);
        }
        let path = match string_argument(&prepared.action.arguments, "path") {
            Ok(path) => path,
            Err(error) => {
                return Err(error);
            },
        };
        match get_unsigned(&prepared.action.arguments, "maximum_bytes") {
            Some(maximum) => {
                if maximum <= usize::MAX as u64 {
                    return Ok(
                        ReadRequest { path: path.clone(), maximum_bytes: maximum as usize },
                    );
                }
            },
            None => {},
        }
        Err(ToolError::Execution("invalid maximum_bytes".to_owned()))
    }

    /// The outcome of a read, given the start of the file.
    pub fn outcome(&self, request: &ReadRequest, bytes: &Vec<u8>) -> (output: Result<
        ToolOutput,
        ToolError,
    >)
        ensures
            match output {
                Ok(found) => read_outcome(request.path@, bytes@, request.maximum_bytes) == Ok::<
                    JsonView,
                    ToolErrorView,
                >(found@.value),
                Err(error) => read_outcome(request.path@, bytes@, request.maximum_bytes) == Err::<
                    JsonView,
                    ToolErrorView,
                >(error@),
            },
    {
        if bytes.len() > request.maximum_bytes {
            return Err(
                ToolError::Execution(
                    "file exceeds ".to_owned().concat(
                        decimal_usize(request.maximum_bytes).as_str(),
                    ).concat(" byte limit"),
                ),
            );
        }
        match decode(bytes) {
            Ok(content) => Ok(
                ToolOutput {
                    value: make_pair(
                        "path",
                        text_json(request.path.as_str()),
                        "content",
                        Json::Text(content),
                    ),
                },
            ),
            Err(_) => Err(ToolError::Execution("file is not valid UTF-8".to_owned())),
        }
    }
}

/// Writes files of the workspace.
#[derive(Debug)]
pub struct WriteFileTool {
    workspace: ResolvedPath,
    maximum_bytes: usize,
}

/// What a prepared write asks for.
#[derive(Debug, PartialEq, Eq)]
pub struct WriteRequest {
    pub path: String,
    pub content: String,
    pub create_directories: bool,
}

/// The target of a write, or why there is none, before the host looks at it.
pub open spec fn write_target(call: ToolCallView, workspace: PathView, maximum: usize) -> Result<
    PathView,
    ToolErrorView,
> {
    match text_argument(call.arguments, "path"@) {
        Err(error) => Err(error),
        Ok(requested) => match text_argument(call.arguments, "content"@) {
            Err(error) => Err(error),
            Ok(content) => if encode_utf8(content).len() > maximum {
                Err(
                    ToolErrorView::InvalidArguments(
                        "content exceeds "@ + decimal_of(maximum as nat) + " byte limit"@,
                    ),
                )
            } else if !relative_path(requested) {
                Err(unsafe_path())
            } else {
                Ok(joined_path(workspace, requested))
            },
        },
    }
}

/// The prepared write of a call, or why there is none.
pub open spec fn prepared_write(
    call: ToolCallView,
    workspace: PathView,
    maximum: usize,
    ancestors: Seq<PathProbeView>,
    existing: PathProbeView,
) -> Result<PreparedToolCallView, ToolErrorView> {
    match write_target(call, workspace, maximum) {
        Err(error) => Err(error),
        Ok(target) => match write_refusal(workspace, target, ancestors, existing) {
            Some(error) => Err(error),
            None => Ok(
                workspace_action(
                    call,
                    "write_file"@,
                    triple_object(
                        "path"@,
                        JsonView::Text(target.shown),
                        "content"@,
                        JsonView::Text(text_argument(call.arguments, "content"@)->Ok_0),
                        "create_directories"@,
                        JsonView::Bool(flag_argument(call.arguments, "create_directories"@)),
                    ),
                    EffectKind::WorkspaceWrite,
                    RetrySafety::Idempotent,
                    workspace,
                ),
            ),
        },
    }
}

/// What a prepared write asks for, or why it is not done.
pub open spec fn write_request_of(action: CanonicalActionView) -> Result<
    (Seq<char>, Seq<char>, bool),
    ToolErrorView,
> {
    match text_argument(action.arguments, "path"@) {
        Err(error) => Err(error),
        Ok(path) => match text_argument(action.arguments, "content"@) {
            Err(error) => Err(error),
            Ok(content) => Ok(
                (path, content, flag_argument(action.arguments, "create_directories"@)),
            ),
        },
    }
}

impl Clone for WriteFileTool {
    fn clone(&self) -> (copy: Self)
        ensures
            copy.root() == self.root(),
            copy.limit() == self.limit(),
    {
        WriteFileTool { workspace: self.workspace.clone(), maximum_bytes: self.maximum_bytes }
    }
}

impl WriteFileTool {
    pub closed spec fn root(&self) -> PathView {
        self.workspace@
    }

    /// The greatest size of a content that is written.
    pub closed spec fn limit(&self) -> usize {
        self.maximum_bytes
    }

    /// A writer in a workspace that the host resolved.
    pub fn new(workspace: Result<ResolvedPath, String>, is_directory: bool) -> (tool: Result<
        Self,
        ProcessError,
    >)
        ensures
            match tool {
                Ok(found) => directory_of(resolved_view(workspace), is_directory) == Ok::<
                    PathView,
                    ProcessErrorView,
                >(found.root()) && found.limit() == 1_048_576,
                Err(error) => directory_of(resolved_view(workspace), is_directory) == Err::<
                    PathView,
                    ProcessErrorView,
                >(error@),
            },
    {
        match canonical_directory(workspace, is_directory) {
            Ok(workspace) => Ok(WriteFileTool { workspace, maximum_bytes: 1_048_576 }),
            Err(error) => Err(error),
        }
    }

    pub fn with_maximum_bytes(self, maximum: usize) -> (tool: Self)
        ensures
            tool.root() == self.root(),
            tool.limit() == (if maximum == 0 {
                1
            } else {
                maximum
            }),
    {
        let mut limit: usize = maximum;
        if limit == 0 {
            limit = 1;
        }
        WriteFileTool { workspace: self.workspace, maximum_bytes: limit }
    }

    /// What the model is told of the tool.
    pub fn definition(&self) -> (definition: ToolDefinition)
        ensures
            definition@ == write_file_definition(),
    {
        let properties = with_member(
            with_member(
                with_member(no_members(), "path", make_typed("string")),
                "content",
                make_typed("string"),
            ),
            "create_directories",
            make_typed("boolean"),
        );
        let mut required: Vec<String> = Vec::new();
        required.push("path".to_owned());
        required.push("content".to_owned());
        assert(views(required@) =~= seq!["path"@, "content"@]);
        ToolDefinition::new(
            "write_file".to_owned(),
            "Write a UTF-8 file inside the workspace".to_owned(),
            make_schema(properties, &required),
        )
    }

    /// The target that the host is to look at for a call.
    pub fn target(&self, call: &ToolCall) -> (target: Result<ResolvedPath, ToolError>)
        ensures
            res_view(target) == write_target(call@, self.root(), self.limit()),
    {
        let requested = match string_argument(&call.arguments, "path") {
            Ok(requested) => requested,
            Err(error) => {
                return Err(error);
            },
        };
        let content = match string_argument(&call.arguments, "content") {
            Ok(content) => content,
            Err(error) => {
                return Err(error);
            },
        };
        if byte_len(content.as_str()) > self.maximum_bytes {
            return Err(
                ToolError::InvalidArguments(
                    "content exceeds ".to_owned().concat(
                        decimal_usize(self.maximum_bytes).as_str(),
                    ).concat(" byte limit"),
                ),
            );
        }
        match validate_relative(requested.as_str()) {
            Ok(()) => Ok(join_path(&self.workspace, requested.as_str())),
            Err(error) => Err(error),
        }
    }

    /// Resolves a call to the write that it asks for, given what the host found at its
    /// target.
    pub fn prepare(
        &self,
        call: &ToolCall,
        ancestors: &Vec<PathProbe>,
        existing: &PathProbe,
    ) -> (prepared: Result<PreparedToolCall, ToolError>)
        ensures
            res_view(prepared) == prepared_write(
                call@,
                self.root(),
                self.limit(),
                views(ancestors@),
                existing@,
            ),
    {
        let target = match self.target(call) {
            Ok(target) => target,
            Err(error) => {
                return Err(error);
            },
        };
        match verify_write_target(&self.workspace, &target, ancestors, existing) {
            Ok(()) => {},
            Err(error) => {
                return Err(error);
            },
        }
        let content = match string_argument(&call.arguments, "content") {
            Ok(content) => content,
            Err(error) => {
                return Err(error);
            },
        };
        let create_directories = bool_argument(&call.arguments, "create_directories");
        let arguments = make_triple(
            "path",
            text_json(target.shown.as_str()),
            "content",
            text_json(content.as_str()),
            "create_directories",
            Json::Bool(create_directories),
        );
        Ok(
            prepare_action(
                call,
                "write_file",
                arguments,
                EffectKind::WorkspaceWrite,
                RetrySafety::Idempotent,
                &self.workspace,
            ),
        )
    }

    /// What a prepared write asks for. A cancelled turn writes nothing.
    pub fn request(&self, prepared: &PreparedToolCall, cancelled: bool) -> (request: Result<
        WriteRequest,
        ToolError,
    >)
        ensures
            cancelled ==> (request matches Err(error) && error@ == ToolErrorView::Cancelled),
            !cancelled ==> match write_request_of(prepared@.action) {
                Ok((path, content, create)) => request matches Ok(found) && found.path@ == path
                    && found.content@ == content && found.create_directories == create,
                Err(error) => request matches Err(found) && found@ == error,
            },
    {
        if cancelled {
            return Err(ToolError::Cancelled);
        }
        let path = match string_argument(&prepared.action.arguments, "path") {
            Ok(path) => path,
            Err(error) => {
                return Err(error);
            },
        };
        let content = match string_argument(&prepared.action.arguments, "content") {
            Ok(content) => content,
            Err(error) => {
                return Err(error);
            },
        };
        let create_directories = bool_argument(&prepared.action.arguments, "create_directories");
        Ok(WriteRequest { path: path.clone(), content: content.clone(), create_directories })
    }

    /// The outcome of a write that was made.
    pub fn outcome(&self, request: &WriteRequest) -> (output: ToolOutput)
        ensures
            output@.value == pair_object(
                "path"@,
                JsonView::Text(request.path@),
                "bytes_written"@,
                JsonView::Integer(encode_utf8(request.content@).len() as int),
            ),
    {
        let size: usize = byte_len(request.content.as_str());
        ToolOutput {
            value: make_pair(
                "path",
                text_json(request.path.as_str()),
                "bytes_written",
                Json::Unsigned(size as u64),
            ),
        }
    }
}

/// A registry with one more tool, or the name that was taken.
pub open spec fn registered<T>(
    tools: Map<Seq<char>, (ToolDefinitionView, T)>,
    definition: ToolDefinitionView,
    implementation: T,
) -> Result<Map<Seq<char>, (ToolDefinitionView, T)>, Seq<char>> {
    if tools.contains_key(definition.name) {
        Err(definition.name)
    } else {
        Ok(tools.insert(definition.name, (definition, implementation)))
    }
}

/// Whether the registration of a workspace's tools went this way: one after the other,
/// until a name is taken.
pub open spec fn registers<T>(
    before: Map<Seq<char>, (ToolDefinitionView, T)>,
    read: T,
    write: T,
    shell: T,
    after: Map<Seq<char>, (ToolDefinitionView, T)>,
    taken: Option<Seq<char>>,
) -> bool {
    match registered(before, read_file_definition(), read) {
        Err(name) => after == before && taken == Some(name),
        Ok(first) => match registered(first, write_file_definition(), write) {
            Err(name) => after == first && taken == Some(name),
            Ok(second) => match registered(second, shell_definition(), shell) {
                Err(name) => after == second && taken == Some(name),
                Ok(third) => after == third && taken is None,
            },
        },
    }
}

/// Registers the tools of a workspace, with what the host runs each of them with. A name
/// that is taken ends it.
pub fn register_workspace_tools<T>(
    registry: &mut ToolRegistry<T>,
    read: (&ReadFileTool, T),
    write: (&WriteFileTool, T),
    shell: (&ShellTool, T),
) -> (done: Result<(), ProcessError>)
    ensures
        match done {
            Ok(()) => registers(old(registry)@, read.1, write.1, shell.1, final(registry)@, None),
            Err(error) => exists|name: Seq<char>| #[trigger]
                registers(
                    old(registry)@,
                    read.1,
                    write.1,
                    shell.1,
                    final(registry)@,
                    Some(name),
                ) && error@ == ProcessErrorView::Invalid(
                    registry_error_text(RegistryErrorView::Duplicate(name)),
                ),
        },
{
    proof {
        reveal_strlit("read_file");
        reveal_strlit("write_file");
        reveal_strlit("shell");
        assert("read_file"@.len() == 9 && "write_file"@.len() == 10 && "shell"@.len() == 5);
        assert(!whitespace("read_file"@[0]) && !whitespace("write_file"@[0]) && !whitespace(
            "shell"@[0],
        ));
    }
    match registry.register(read.0.definition(), read.1) {
        Ok(()) => {},
        Err(error) => {
            assert(registers(
                old(registry)@,
                read.1,
                write.1,
                shell.1,
                registry@,
                Some("read_file"@),
            ));
            return Err(ProcessError::Invalid(error.to_text()));
        },
    }
    match registry.register(write.0.definition(), write.1) {
        Ok(()) => {},
        Err(error) => {
            assert(registers(
                old(registry)@,
                read.1,
                write.1,
                shell.1,
                registry@,
                Some("write_file"@),
            ));
            return Err(ProcessError::Invalid(error.to_text()));
        },
    }
    match registry.register(shell.0.definition(), shell.1) {
        Ok(()) => {},
        Err(error) => {
            assert(registers(
                old(registry)@,
                read.1,
                write.1,
                shell.1,
                registry@,
                Some("shell"@),
            ));
            return Err(ProcessError::Invalid(error.to_text()));
        },
    }
    Ok(())
}

// ---------------------------------------------------------------------------
// Laws
// ---------------------------------------------------------------------------

/// A prepared shell command is executed as it was prepared: the request that is run is the
/// one that the action shows, in the workspace and within the time limit.
pub proof fn law_shell_runs_the_prepared_request(
    call: ToolCallView,
    workspace: PathView,
    maximum: u64,
)
    requires
        maximum >= 1,
        prepared_shell(call, workspace, maximum) is Ok,
    ensures
        ({
            let action = prepared_shell(call, workspace, maximum)->Ok_0.action;
            request_of(action.arguments) matches Some(request) && text_argument(
                call.arguments,
                "command"@,
            ) == Ok::<Seq<char>, ToolErrorView>(request.command) && request.working_directory
                == workspace.shown && 1 <= request.timeout_ms <= maximum
        }),
{
    reveal_strlit("command");
    reveal_strlit("working_directory");
    reveal_strlit("timeout_ms");
    assert("command"@.len() == 7 && "working_directory"@.len() == 17 && "timeout_ms"@.len() == 10);
}

/// A relative path never leaves the directory that it is joined to.
pub proof fn law_joined_paths_stay_inside(directory: PathView, path: Seq<char>)
    requires
        relative_path(path),
    ensures
        lies_in(joined_path(directory, path).components, directory.components),
        !joined_path(directory, path).components.skip(
            directory.components.len() as int,
        ).contains(".."@),
{
    let names = names_of(segments_of(path));
    let whole = joined_path(directory, path).components;
    assert(whole.take(directory.components.len() as int) =~= directory.components);
    assert(whole.skip(directory.components.len() as int) =~= names);
    lemma_names(segments_of(path));
    if names.contains(".."@) {
        let i = choose|i: int| 0 <= i < segments_of(path).len() && segments_of(path)[i] == ".."@;
        assert(segments_of(path)[i] != ".."@);
    }
}

proof fn lemma_names(segments: Seq<Seq<char>>)
    ensures
        forall|name: Seq<char>| #[trigger]
            names_of(segments).contains(name) ==> segments.contains(name),
    decreases segments.len(),
{
    if segments.len() > 0 {
        lemma_names(segments.drop_last());
        let earlier = names_of(segments.drop_last());
        assert forall|name: Seq<char>| #[trigger] names_of(segments).contains(name) implies segments.contains(
            name,
        ) by {
            let names = names_of(segments);
            let i = choose|i: int| 0 <= i < names.len() && names[i] == name;
            if i < earlier.len() {
                assert(earlier[i] == name);
                assert(earlier.contains(name));
                let j = choose|j: int|
                    0 <= j < segments.drop_last().len() && segments.drop_last()[j] == name;
                assert(segments[j] == name);
            } else {
                assert(segments[segments.len() - 1] == name);
            }
        }
    }
}

/// Only files of the workspace are read.
pub proof fn law_reads_stay_in_the_workspace(
    call: ToolCallView,
    workspace: PathView,
    maximum: usize,
    resolved: Result<PathView, Seq<char>>,
    is_file: bool,
)
    requires
        prepared_read(call, workspace, maximum, resolved, is_file) is Ok,
    ensures
        resolved matches Ok(path) && lies_in(path.components, workspace.components) && is_file
            && read_request_of(
            prepared_read(call, workspace, maximum, resolved, is_file)->Ok_0.action,
        ) == Ok::<(Seq<char>, usize), ToolErrorView>((path.shown, maximum)),
{
    reveal_strlit("path");
    reveal_strlit("maximum_bytes");
    assert("path"@.len() == 4 && "maximum_bytes"@.len() == 13);
}

/// Only targets inside the workspace are written: the target lies in it, and so does what
/// its nearest existing directory and the target itself resolve to.
pub proof fn law_writes_stay_in_the_workspace(
    call: ToolCallView,
    workspace: PathView,
    maximum: usize,
    ancestors: Seq<PathProbeView>,
    existing: PathProbeView,
    nearest: int,
)
    requires
        prepared_write(call, workspace, maximum, ancestors, existing) is Ok,
        0 <= nearest < ancestors.len(),
        ancestors[nearest].present,
        forall|i: int| 0 <= i < nearest ==> !(#[trigger] ancestors[i]).present,
    ensures
        write_target(call, workspace, maximum) matches Ok(target) && lies_in(
            target.components,
            workspace.components,
        ),
        ancestors[nearest].resolved matches Ok(path) && lies_in(
            path.components,
            workspace.components,
        ),
        existing.present ==> (existing.resolved matches Ok(path) && lies_in(
            path.components,
            workspace.components,
        )),
{
    lemma_nearest(workspace, ancestors, 0, nearest);
}

proof fn lemma_nearest(
    workspace: PathView,
    ancestors: Seq<PathProbeView>,
    at: int,
    nearest: int,
)
    requires
        0 <= at <= nearest < ancestors.len(),
        ancestors[nearest].present,
        forall|i: int| 0 <= i < nearest ==> !(#[trigger] ancestors[i]).present,
    ensures
        ancestor_refusal(workspace, ancestors, at) == probe_refusal(
            workspace,
            ancestors[nearest],
            "write target traverses a symlink outside the workspace"@,
        ),
    decreases nearest - at,
{
    if at < nearest {
        assert(!ancestors[at].present);
        lemma_nearest(workspace, ancestors, at + 1, nearest);
    }
}

} // verus!
