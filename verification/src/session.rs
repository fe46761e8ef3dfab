//! What a terminal session is made of.

use vstd::prelude::*;
use vstd::string::*;

use crate::datum::views;
use crate::context::{PromptLayer, PromptSegment, PromptSegmentView};
use crate::context_fs::FsContextConfig;
use crate::memory::{last_user_message, query_of};
use crate::model::{
    ModelRequest, ModelResponse, ModelResponseView, StopReason, TokenUsage,
};
use crate::policy::{
    Access, CapabilityPolicy, CapabilityPolicyView, PolicyContextView, ToolPolicy,
};
use crate::protocol::TranscriptMessageView;
use crate::text::same_text;

verus! {

/// The most that is retained of each output of a process, in bytes.
pub const MAX_PROCESS_OUTPUT: usize = 1_048_576;

/// Whether the command line asks for help.
pub open spec fn asks_for_help(arguments: Seq<Seq<char>>) -> bool {
    arguments.contains("--help"@) || arguments.contains("-h"@)
}

/// Whether the command line asks for help.
pub fn wants_help(arguments: &Vec<String>) -> (yes: bool)
    ensures
        yes == asks_for_help(views(arguments@)),
{
    let ghost all = views(arguments@);
    let mut at: usize = 0;
    while at < arguments.len()
        invariant
            at <= arguments@.len(),
            all == views(arguments@),
            forall|i: int| 0 <= i < at ==> all[i] != "--help"@ && all[i] != "-h"@,
        decreases arguments@.len() - at,
    {
        assert(all[at as int] == arguments@[at as int]@);
        if same_text(arguments[at].as_str(), "--help") || same_text(arguments[at].as_str(), "-h") {
            assert(all.contains(all[at as int]));
            return true;
        }
        at = at + 1;
    }
    false
}

/// The model that needs no provider: it echoes the last user message.
pub open spec fn demo_answer(messages: Seq<TranscriptMessageView>) -> ModelResponseView {
    ModelResponseView {
        content: "demo response: "@ + query_of(messages),
        tool_calls: Seq::empty(),
        stop_reason: StopReason::EndTurn,
        usage: TokenUsage { input_tokens: 0, output_tokens: 0 },
    }
}

/// What the model that needs no provider answers.
pub fn demo_response(request: &ModelRequest) -> (response: ModelResponse)
    ensures
        response@ == demo_answer(request@.context.messages),
{
    let input = last_user_message(&request.context.messages);
    ModelResponse::text("demo response: ".to_owned().concat(input.as_str()))
}

/// What the tools of a session may do: files are read freely, and everything else that is
/// registered is asked for.
pub open spec fn session_grants() -> CapabilityPolicyView {
    CapabilityPolicyView {
        default: Access::Deny,
        tools: Map::<Seq<char>, Access>::empty().insert("read_file"@, Access::Allow).insert(
            "write_file"@,
            Access::Ask,
        ).insert("shell"@, Access::Ask),
    }
}

/// The policy of a session.
pub fn session_policy() -> (policy: CapabilityPolicy)
    ensures
        policy@ == session_grants(),
{
    CapabilityPolicy::deny_by_default().grant("read_file".to_owned(), Access::Allow).grant(
        "write_file".to_owned(),
        Access::Ask,
    ).grant("shell".to_owned(), Access::Ask)
}

/// The context of a session in a workspace, with the skill directories that exist there.
pub fn session_context(workspace: &str, skill_roots: Vec<String>, history_groups: usize) -> (config:
    FsContextConfig)
    ensures
        config.project_root@ == workspace@,
        config.current_directory@ == workspace@,
        views(config.skill_roots@) == views(skill_roots@),
        config.selected_skills@ == Map::<Seq<char>, bool>::empty(),
        views(config.stable_segments@) == seq![
            PromptSegmentView {
                layer: PromptLayer::Stable,
                name: "agent-harness"@,
                text:
                    "You are a coding agent. Inspect before changing files and report verifiable outcomes."@,
            },
        ],
        config.volatile_segments@.len() == 0,
        config.max_transcript_groups == Some(history_groups),
        config.max_characters is None,
{
    let mut config = FsContextConfig::new(workspace.to_owned(), workspace.to_owned());
    let mut stable: Vec<PromptSegment> = Vec::new();
    stable.push(
        PromptSegment::new(
            PromptLayer::Stable,
            "agent-harness".to_owned(),
            "You are a coding agent. Inspect before changing files and report verifiable outcomes.".to_owned(),
        ),
    );
    assert(views(stable@) =~= seq![stable@[0]@]);
    config.stable_segments = stable;
    config.skill_roots = skill_roots;
    config.max_transcript_groups = Some(history_groups);
    config
}

/// The title of a session's terminal.
pub fn session_title(workspace: &str) -> (title: String)
    ensures
        title@ == "Agent Harness — "@ + workspace@,
{
    "Agent Harness — ".to_owned().concat(workspace)
}

/// In a session nothing is changed without being asked for, and no other tool is known: only
/// reading a file is allowed outright.
pub proof fn law_sessions_ask_before_changes(
    policy: CapabilityPolicy,
    name: Seq<char>,
    context: PolicyContextView,
)
    requires
        policy@ == session_grants(),
    ensures
        policy.grants(name, context) == Access::Allow <==> name == "read_file"@,
        policy.grants(name, context) == Access::Ask <==> name == "write_file"@ || name == "shell"@,
{
    reveal_strlit("read_file");
    reveal_strlit("write_file");
    reveal_strlit("shell");
    assert("read_file"@.len() == 9 && "write_file"@.len() == 10 && "shell"@.len() == 5);
}

} // verus!
