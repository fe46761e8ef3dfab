//! The layered context that the model is given.

use vstd::prelude::*;
use vstd::string::*;

use crate::datum::{lemma_views_concat, lemma_views_push, same_all, snapshot_all, views, Datum};
use crate::id::{ThreadId, TurnId};
use crate::protocol::{TranscriptMessage, TranscriptMessageView};
use crate::text::{byte_len, capped, decimal_of, decimal_usize, join, join_of, total_size};
use crate::wire::{message_text, write_message};

verus! {

/// The layers of a prompt, from the most to the least stable.
#[derive(Clone, Copy, Debug, PartialEq, Eq, Structural)]
pub enum PromptLayer {
    Stable,
    Rules,
    Skills,
    Memory,
    Compaction,
    Volatile,
}

/// One named piece of a prompt.
#[derive(Debug, PartialEq, Eq)]
pub struct PromptSegment {
    pub layer: PromptLayer,
    pub name: String,
    pub text: String,
}

/// The model of [`PromptSegment`].
#[verifier::ext_equal]
pub ghost struct PromptSegmentView {
    pub layer: PromptLayer,
    pub name: Seq<char>,
    pub text: Seq<char>,
}

impl View for PromptSegment {
    type V = PromptSegmentView;

    open spec fn view(&self) -> PromptSegmentView {
        PromptSegmentView {
            layer: self.layer,
            name: self.name@,
            text: self.text@,
        }
    }
}

impl Datum for PromptSegment {
    fn snapshot(&self) -> (copy: Self) {
        PromptSegment {
            layer: self.layer,
            name: self.name.snapshot(),
            text: self.text.snapshot(),
        }
    }

    fn same(&self, other: &Self) -> (equal: bool) {
        self.layer == other.layer && self.name.same(&other.name) && self.text.same(&other.text)
    }
}

impl Clone for PromptSegment {
    fn clone(&self) -> (copy: Self)
        ensures
            copy@ == self@,
    {
        self.snapshot()
    }
}

impl PromptSegment {
    pub fn new(layer: PromptLayer, name: String, text: String) -> (segment: Self)
        ensures
            segment@ == (PromptSegmentView { layer, name: name@, text: text@ }),
    {
        PromptSegment { layer, name, text }
    }
}

/// What a context is compiled from.
#[derive(Debug, PartialEq, Eq)]
pub struct ContextInput {
    pub thread_id: ThreadId,
    pub turn_id: TurnId,
    pub transcript: Vec<TranscriptMessage>,
}

/// The model of [`ContextInput`].
#[verifier::ext_equal]
pub ghost struct ContextInputView {
    pub thread_id: Seq<char>,
    pub turn_id: Seq<char>,
    pub transcript: Seq<TranscriptMessageView>,
}

impl View for ContextInput {
    type V = ContextInputView;

    open spec fn view(&self) -> ContextInputView {
        ContextInputView {
            thread_id: self.thread_id@,
            turn_id: self.turn_id@,
            transcript: views(self.transcript@),
        }
    }
}

impl Datum for ContextInput {
    fn snapshot(&self) -> (copy: Self) {
        ContextInput {
            thread_id: self.thread_id.snapshot(),
            turn_id: self.turn_id.snapshot(),
            transcript: snapshot_all(&self.transcript),
        }
    }

    fn same(&self, other: &Self) -> (equal: bool) {
        self.thread_id.same(&other.thread_id) && self.turn_id.same(&other.turn_id)
            && same_all(&self.transcript, &other.transcript)
    }
}

impl Clone for ContextInput {
    fn clone(&self) -> (copy: Self)
        ensures
            copy@ == self@,
    {
        self.snapshot()
    }
}

/// What the model is given.
#[derive(Debug, PartialEq, Eq)]
pub struct CompiledContext {
    /// Kept as distinct ordered segments so providers can preserve a stable
    /// prefix for prompt caching instead of concatenating volatile data into it.
    pub prompt: Vec<PromptSegment>,
    pub messages: Vec<TranscriptMessage>,
}

/// The model of [`CompiledContext`].
#[verifier::ext_equal]
pub ghost struct CompiledContextView {
    pub prompt: Seq<PromptSegmentView>,
    pub messages: Seq<TranscriptMessageView>,
}

impl View for CompiledContext {
    type V = CompiledContextView;

    open spec fn view(&self) -> CompiledContextView {
        CompiledContextView {
            prompt: views(self.prompt@),
            messages: views(self.messages@),
        }
    }
}

impl Datum for CompiledContext {
    fn snapshot(&self) -> (copy: Self) {
        CompiledContext {
            prompt: snapshot_all(&self.prompt),
            messages: snapshot_all(&self.messages),
        }
    }

    fn same(&self, other: &Self) -> (equal: bool) {
        same_all(&self.prompt, &other.prompt) && same_all(&self.messages, &other.messages)
    }
}

impl Clone for CompiledContext {
    fn clone(&self) -> (copy: Self)
        ensures
            copy@ == self@,
    {
        self.snapshot()
    }
}

/// Why no context could be compiled.
#[derive(Debug, PartialEq, Eq)]
pub enum ContextError {
    TooLarge { actual: usize, maximum: usize },
    Path(String),
    Read(String),
}

/// The model of [`ContextError`].
#[verifier::ext_equal]
pub ghost enum ContextErrorView {
    TooLarge { actual: usize, maximum: usize },
    Path(Seq<char>),
    Read(Seq<char>),
}

impl View for ContextError {
    type V = ContextErrorView;

    open spec fn view(&self) -> ContextErrorView {
        match *self {
            ContextError::TooLarge { actual, maximum } => ContextErrorView::TooLarge {
                actual,
                maximum,
            },
            ContextError::Path(x0) => ContextErrorView::Path(x0@),
            ContextError::Read(x0) => ContextErrorView::Read(x0@),
        }
    }
}

impl Datum for ContextError {
    fn snapshot(&self) -> (copy: Self) {
        match self {
            ContextError::TooLarge { actual, maximum } => ContextError::TooLarge {
                actual: *actual,
                maximum: *maximum,
            },
            ContextError::Path(x0) => ContextError::Path(x0.snapshot()),
            ContextError::Read(x0) => ContextError::Read(x0.snapshot()),
        }
    }

    fn same(&self, other: &Self) -> (equal: bool) {
        match (self, other) {
            (
                ContextError::TooLarge { actual: actual_a, maximum: maximum_a },
                ContextError::TooLarge { actual: actual_b, maximum: maximum_b },
            ) => *actual_a == *actual_b && *maximum_a == *maximum_b,
            (ContextError::Path(x0), ContextError::Path(y0)) => x0.same(y0),
            (ContextError::Read(x0), ContextError::Read(y0)) => x0.same(y0),
            _ => false,
        }
    }
}

impl Clone for ContextError {
    fn clone(&self) -> (copy: Self)
        ensures
            copy@ == self@,
    {
        self.snapshot()
    }
}

/// The message of a context failure.
pub open spec fn context_error_text(error: ContextErrorView) -> Seq<char> {
    match error {
        ContextErrorView::TooLarge { actual, maximum } => {
            "context exceeds the configured character budget ("@ + decimal_of(actual as nat) + " > "@
                + decimal_of(maximum as nat) + ")"@
        },
        ContextErrorView::Path(detail) => "context path error: "@ + detail,
        ContextErrorView::Read(detail) => "failed to read context source: "@ + detail,
    }
}

impl ContextError {
    pub fn to_text(&self) -> (text: String)
        ensures
            text@ == context_error_text(self@),
    {
        match self {
            ContextError::TooLarge { actual, maximum } => {
                "context exceeds the configured character budget (".to_owned().concat(
                    decimal_usize(*actual).as_str(),
                ).concat(" > ").concat(decimal_usize(*maximum).as_str()).concat(")")
            },
            ContextError::Path(detail) => "context path error: ".to_owned().concat(detail.as_str()),
            ContextError::Read(detail) => {
                "failed to read context source: ".to_owned().concat(detail.as_str())
            },
        }
    }
}

// ---------------------------------------------------------------------------
// The layered compiler
// ---------------------------------------------------------------------------

/// Compiles the context of a model request.
pub trait ContextCompiler {
    fn compile(&self, input: ContextInput) -> Result<CompiledContext, ContextError>;
}

/// The texts of segments.
pub open spec fn segment_texts(segments: Seq<PromptSegmentView>) -> Seq<Seq<char>> {
    segments.map_values(|segment: PromptSegmentView| segment.text)
}

/// The JSON texts of messages.
pub open spec fn message_texts(messages: Seq<TranscriptMessageView>) -> Seq<Seq<char>> {
    messages.map_values(|message: TranscriptMessageView| message_text(message))
}

/// The sizes of all segment texts, added to `size`.
pub fn add_segment_sizes(segments: &Vec<PromptSegment>, size: usize) -> (total: usize)
    ensures
        total == capped(size as nat + total_size(segment_texts(views(segments@)))),
{
    let ghost texts = segment_texts(views(segments@));
    let mut total: usize = size;
    let mut index: usize = 0;
    assert(texts.take(0) =~= Seq::empty());
    while index < segments.len()
        invariant
            index <= segments@.len(),
            texts == segment_texts(views(segments@)),
            total == capped(size as nat + total_size(texts.take(index as int))),
        decreases segments@.len() - index,
    {
        proof {
            let grown = texts.take(index as int + 1);
            assert(grown.drop_last() =~= texts.take(index as int));
            assert(grown.last() == segments@[index as int].text@);
        }
        total = total.saturating_add(byte_len(segments[index].text.as_str()));
        index = index + 1;
    }
    assert(texts.take(index as int) =~= texts);
    total
}

fn add_message_sizes(messages: &Vec<TranscriptMessage>, size: usize) -> (total: usize)
    ensures
        total == capped(size as nat + total_size(message_texts(views(messages@)))),
{
    let ghost texts = message_texts(views(messages@));
    let mut total: usize = size;
    let mut index: usize = 0;
    assert(texts.take(0) =~= Seq::empty());
    while index < messages.len()
        invariant
            index <= messages@.len(),
            texts == message_texts(views(messages@)),
            total == capped(size as nat + total_size(texts.take(index as int))),
        decreases messages@.len() - index,
    {
        let text = write_message(&messages[index]);
        proof {
            let grown = texts.take(index as int + 1);
            assert(grown.drop_last() =~= texts.take(index as int));
            assert(grown.last() == text@);
        }
        total = total.saturating_add(byte_len(text.as_str()));
        index = index + 1;
    }
    assert(texts.take(index as int) =~= texts);
    total
}

/// A context that is held against a size limit.
pub open spec fn within_limit(
    context: CompiledContextView,
    size: usize,
    maximum: Option<usize>,
) -> Result<CompiledContextView, ContextErrorView> {
    match maximum {
        Some(limit) => if size > limit {
            Err(ContextErrorView::TooLarge { actual: size, maximum: limit })
        } else {
            Ok(context)
        },
        None => Ok(context),
    }
}

/// Deterministic layered compiler. Memory remains an advisory prompt layer and
/// is never fed into the policy engine.
#[derive(Debug)]
pub struct LayeredContextCompiler {
    segments: Vec<PromptSegment>,
    max_characters: Option<usize>,
}

impl Clone for LayeredContextCompiler {
    fn clone(&self) -> (copy: Self)
        ensures
            copy.segments() == self.segments(),
            copy.limit() == self.limit(),
    {
        LayeredContextCompiler {
            segments: snapshot_all(&self.segments),
            max_characters: self.max_characters,
        }
    }
}

impl LayeredContextCompiler {
    /// The prompt segments, in their order.
    pub closed spec fn segments(&self) -> Seq<PromptSegmentView> {
        views(self.segments@)
    }

    /// The size limit, if there is one.
    pub closed spec fn limit(&self) -> Option<usize> {
        self.max_characters
    }

    pub fn new() -> (compiler: Self)
        ensures
            compiler.segments() == Seq::<PromptSegmentView>::empty(),
            compiler.limit() is None,
    {
        let compiler = LayeredContextCompiler { segments: Vec::new(), max_characters: None };
        assert(views(compiler.segments@) =~= Seq::<PromptSegmentView>::empty());
        compiler
    }

    /// Adds a segment behind the others.
    pub fn with_segment(self, segment: PromptSegment) -> (compiler: Self)
        ensures
            compiler.segments() == self.segments().push(segment@),
            compiler.limit() == self.limit(),
    {
        let mut segments = self.segments;
        proof {
            lemma_views_push(segments@, segment);
        }
        segments.push(segment);
        LayeredContextCompiler { segments, max_characters: self.max_characters }
    }

    /// Adds segments behind the others.
    pub fn with_segments(self, more: Vec<PromptSegment>) -> (compiler: Self)
        ensures
            compiler.segments() == self.segments() + views(more@),
            compiler.limit() == self.limit(),
    {
        let mut segments = self.segments;
        let mut rest = more;
        proof {
            lemma_views_concat(segments@, rest@);
        }
        segments.append(&mut rest);
        LayeredContextCompiler { segments, max_characters: self.max_characters }
    }

    /// Limits the size of prompt and transcript together.
    pub fn with_max_characters(self, maximum: usize) -> (compiler: Self)
        ensures
            compiler.segments() == self.segments(),
            compiler.limit() == Some(maximum),
    {
        LayeredContextCompiler { segments: self.segments, max_characters: Some(maximum) }
    }
}

/// The size of a context: the bytes of its prompt texts and of its messages as JSON.
pub open spec fn context_size(
    segments: Seq<PromptSegmentView>,
    messages: Seq<TranscriptMessageView>,
) -> usize {
    capped(total_size(segment_texts(segments)) + total_size(message_texts(messages)))
}

/// The view of a compiler's answer.
pub open spec fn compiled_view(
    compiled: Result<CompiledContext, ContextError>,
) -> Result<CompiledContextView, ContextErrorView> {
    match compiled {
        Ok(context) => Ok(context@),
        Err(error) => Err(error@),
    }
}

impl ContextCompiler for LayeredContextCompiler {
    /// Puts the segments in front of the transcript, unless both together are too large.
    fn compile(&self, input: ContextInput) -> (compiled: Result<CompiledContext, ContextError>)
        ensures
            compiled_view(compiled) == within_limit(
                (CompiledContextView { prompt: self.segments(), messages: input@.transcript }),
                context_size(self.segments(), input@.transcript),
                self.limit(),
            ),
    {
        let actual: usize = add_message_sizes(
            &input.transcript,
            add_segment_sizes(&self.segments, 0),
        );
        match self.max_characters {
            Some(maximum) => {
                if actual > maximum {
                    return Err(ContextError::TooLarge { actual, maximum });
                }
            },
            None => {},
        }
        Ok(CompiledContext { prompt: snapshot_all(&self.segments), messages: input.transcript })
    }
}

// ---------------------------------------------------------------------------
// Rules by directory
// ---------------------------------------------------------------------------

/// Whether a path lies in a directory or is the directory itself. Both are absolute,
/// given by their components.
pub open spec fn lies_in(path: Seq<Seq<char>>, directory: Seq<Seq<char>>) -> bool {
    directory.is_prefix_of(path)
}

/// Whether a path lies in a directory or is the directory itself.
pub fn is_inside(path: &Vec<String>, directory: &Vec<String>) -> (yes: bool)
    ensures
        yes == lies_in(views(path@), views(directory@)),
{
    let ghost outer = views(directory@);
    let ghost inner = views(path@);
    if directory.len() > path.len() {
        assert(outer.len() > inner.len());
        return false;
    }
    let mut index: usize = 0;
    while index < directory.len()
        invariant
            index <= directory@.len() <= path@.len(),
            outer == views(directory@),
            inner == views(path@),
            forall|i: int| 0 <= i < index ==> outer[i] == inner[i],
        decreases directory@.len() - index,
    {
        assert(outer[index as int] == directory@[index as int]@);
        assert(inner[index as int] == path@[index as int]@);
        if !directory[index].same(&path[index]) {
            return false;
        }
        index = index + 1;
    }
    true
}

/// A directory as the host resolved it: how it is shown, and its components.
#[derive(Debug)]
pub struct ResolvedPath {
    pub shown: String,
    pub components: Vec<String>,
}

/// The model of [`ResolvedPath`].
#[verifier::ext_equal]
pub ghost struct PathView {
    pub shown: Seq<char>,
    pub components: Seq<Seq<char>>,
}

impl View for ResolvedPath {
    type V = PathView;

    open spec fn view(&self) -> PathView {
        PathView { shown: self.shown@, components: views(self.components@) }
    }
}

impl Clone for ResolvedPath {
    fn clone(&self) -> (copy: Self)
        ensures
            copy@ == self@,
    {
        ResolvedPath { shown: self.shown.clone(), components: snapshot_all(&self.components) }
    }
}

/// A rule file as the host found it in a directory.
#[derive(Debug)]
pub struct FoundRule {
    /// The path under which it was looked for.
    pub shown: String,
    /// The path that it resolves to, or why it could not be resolved.
    pub resolved: Result<ResolvedPath, String>,
    /// What it holds, or why it could not be read.
    pub text: Result<String, String>,
}

/// The model of [`FoundRule`].
#[verifier::ext_equal]
pub ghost struct FoundRuleView {
    pub shown: Seq<char>,
    pub resolved: Result<(Seq<char>, Seq<Seq<char>>), Seq<char>>,
    pub text: Result<Seq<char>, Seq<char>>,
}

impl View for FoundRule {
    type V = FoundRuleView;

    open spec fn view(&self) -> FoundRuleView {
        FoundRuleView {
            shown: self.shown@,
            resolved: match self.resolved {
                Ok(path) => Ok((path.shown@, views(path.components@))),
                Err(message) => Err(message@),
            },
            text: match self.text {
                Ok(text) => Ok(text@),
                Err(message) => Err(message@),
            },
        }
    }
}

/// The segment of a rule file, or why the file is not taken. It must resolve to a path
/// inside the project root, and is named by its path below that root.
pub open spec fn rule_segment_of(
    root: Seq<Seq<char>>,
    rule: FoundRuleView,
) -> Result<PromptSegmentView, ContextErrorView> {
    match rule.resolved {
        Err(message) => Err(ContextErrorView::Path(rule.shown + ": "@ + message)),
        Ok((shown, components)) => if !lies_in(components, root) {
            Err(
                ContextErrorView::Path(
                    "rule file `"@ + rule.shown + "` resolves outside project root"@,
                ),
            )
        } else {
            match rule.text {
                Err(message) => Err(ContextErrorView::Read(shown + ": "@ + message)),
                Ok(text) => Ok(
                    PromptSegmentView {
                        layer: PromptLayer::Rules,
                        name: join_of(components.skip(root.len() as int), "/"@),
                        text,
                    },
                ),
            }
        },
    }
}

/// The segments of rule files in their order, or the first failure.
pub open spec fn rule_segments_of(
    root: Seq<Seq<char>>,
    rules: Seq<FoundRuleView>,
) -> Result<Seq<PromptSegmentView>, ContextErrorView>
    decreases rules.len(),
{
    if rules.len() == 0 {
        Ok(Seq::empty())
    } else {
        match rule_segments_of(root, rules.drop_last()) {
            Err(error) => Err(error),
            Ok(front) => match rule_segment_of(root, rules.last()) {
                Err(error) => Err(error),
                Ok(segment) => Ok(front.push(segment)),
            },
        }
    }
}

/// The directories from a root down to a directory in it, outermost first.
pub open spec fn directories_of(root: Seq<Seq<char>>, current: Seq<Seq<char>>) -> Seq<
    Seq<Seq<char>>,
> {
    Seq::new(
        (current.len() - root.len() + 1) as nat,
        |i: int| current.take(root.len() + i),
    )
}

/// Lists of texts, by their views.
pub open spec fn deep_views(lists: Seq<Vec<String>>) -> Seq<Seq<Seq<char>>> {
    lists.map_values(|list: Vec<String>| views(list@))
}

/// Loads one rule file per directory from the project root to the current
/// directory. Earlier filenames take precedence within a directory, allowing
/// `AGENTS.override.md` to shadow `AGENTS.md`.
#[derive(Debug)]
pub struct DirectoryRuleLoader {
    file_names: Vec<String>,
}

impl Clone for DirectoryRuleLoader {
    fn clone(&self) -> (copy: Self)
        ensures
            copy.names() == self.names(),
    {
        DirectoryRuleLoader { file_names: snapshot_all(&self.file_names) }
    }
}

impl Default for DirectoryRuleLoader {
    fn default() -> (loader: Self)
        ensures
            loader.names() == seq!["AGENTS.override.md"@, "AGENTS.md"@],
    {
        let mut file_names: Vec<String> = Vec::new();
        file_names.push("AGENTS.override.md".to_owned());
        file_names.push("AGENTS.md".to_owned());
        let loader = DirectoryRuleLoader { file_names };
        assert(loader.names() =~= seq!["AGENTS.override.md"@, "AGENTS.md"@]);
        loader
    }
}

impl DirectoryRuleLoader {
    /// The names of rule files, those that take precedence first.
    pub closed spec fn names(&self) -> Seq<Seq<char>> {
        views(self.file_names@)
    }

    pub fn new(file_names: Vec<String>) -> (loader: Self)
        ensures
            loader.names() == views(file_names@),
    {
        DirectoryRuleLoader { file_names }
    }

    /// The names of rule files, those that take precedence first.
    pub fn file_names(&self) -> (names: &Vec<String>)
        ensures
            views(names@) == self.names(),
    {
        &self.file_names
    }

    /// The directories that may hold rules, outermost first. The current directory must
    /// lie in the project root.
    pub fn directories(&self, root: &ResolvedPath, current: &ResolvedPath) -> (found: Result<
        Vec<Vec<String>>,
        ContextError,
    >)
        ensures
            match found {
                Ok(directories) => lies_in(views(current.components@), views(root.components@))
                    && deep_views(directories@) == directories_of(
                    views(root.components@),
                    views(current.components@),
                ),
                Err(error) => !lies_in(views(current.components@), views(root.components@))
                    && error@ == ContextErrorView::Path(
                    "current directory `"@ + current.shown@ + "` is outside project root `"@
                        + root.shown@ + "`"@,
                ),
            },
    {
        let ghost outer = views(root.components@);
        let ghost inner = views(current.components@);
        if !is_inside(&current.components, &root.components) {
            return Err(
                ContextError::Path(
                    "current directory `".to_owned().concat(current.shown.as_str()).concat(
                        "` is outside project root `",
                    ).concat(root.shown.as_str()).concat("`"),
                ),
            );
        }
        let mut directories: Vec<Vec<String>> = Vec::new();
        let mut depth: usize = root.components.len();
        assert(outer.len() == root.components@.len() && inner.len() == current.components@.len());
        let ghost wanted = directories_of(outer, inner);
        assert(deep_views(directories@) =~= wanted.take(0));
        while depth <= current.components.len()
            invariant
                root.components@.len() <= depth <= current.components@.len() + 1,
                outer.len() == root.components@.len(),
                inner == views(current.components@),
                inner.len() == current.components@.len(),
                outer == views(root.components@),
                lies_in(inner, outer),
                wanted == directories_of(outer, inner),
                deep_views(directories@) == wanted.take(depth - outer.len()),
            decreases current.components@.len() + 1 - depth,
        {
            let directory = first_components(&current.components, depth);
            proof {
                let count = depth - outer.len();
                assert(wanted[count] == views(directory@));
                assert(wanted.take(count + 1) =~= wanted.take(count).push(views(directory@)));
                assert(deep_views(directories@.push(directory)) =~= deep_views(directories@).push(
                    views(directory@),
                ));
            }
            directories.push(directory);
            if depth == current.components.len() {
                assert(wanted.take(depth - outer.len() + 1) =~= wanted);
                return Ok(directories);
            }
            depth = depth + 1;
        }
        Ok(directories)
    }

    /// Which of the rule file names to take in a directory, given for each name whether
    /// there is such a file: the first one that there is.
    pub fn select(&self, present: &Vec<bool>) -> (chosen: Option<usize>)
        ensures
            match chosen {
                Some(index) => index < present@.len() && present@[index as int] && forall|i: int|
                    0 <= i < index ==> !(#[trigger] present@[i]),
                None => forall|i: int| 0 <= i < present@.len() ==> !(#[trigger] present@[i]),
            },
    {
        let mut index: usize = 0;
        while index < present.len()
            invariant
                index <= present@.len(),
                forall|i: int| 0 <= i < index ==> !(#[trigger] present@[i]),
            decreases present@.len() - index,
        {
            if present[index] {
                return Some(index);
            }
            index = index + 1;
        }
        None
    }

    /// The rule segments of the directories, given the rule files that were found in
    /// them. The first file that cannot be taken fails the load.
    pub fn load(&self, root: &ResolvedPath, rules: Vec<FoundRule>) -> (loaded: Result<
        Vec<PromptSegment>,
        ContextError,
    >)
        ensures
            crate::datum::list_view(loaded) == rule_segments_of(
                views(root.components@),
                views(rules@),
            ),
    {
        let ghost all = views(rules@);
        let ghost outer = views(root.components@);
        let mut segments: Vec<PromptSegment> = Vec::new();
        let mut index: usize = 0;
        assert(all.take(0) =~= Seq::empty());
        assert(views(segments@) =~= Seq::empty());
        while index < rules.len()
            invariant
                index <= rules@.len(),
                all == views(rules@),
                outer == views(root.components@),
                rule_segments_of(outer, all.take(index as int)) == Ok::<
                    Seq<PromptSegmentView>,
                    ContextErrorView,
                >(views(segments@)),
            decreases rules@.len() - index,
        {
            proof {
                let grown = all.take(index as int + 1);
                assert(grown.drop_last() =~= all.take(index as int));
                assert(grown.last() == rules@[index as int]@);
            }
            match rule_segment(&root.components, &rules[index]) {
                Ok(segment) => {
                    proof {
                        lemma_views_push(segments@, segment);
                    }
                    segments.push(segment);
                },
                Err(error) => {
                    proof {
                        lemma_rules_stop(outer, all, index as int + 1);
                    }
                    return Err(error);
                },
            }
            index = index + 1;
        }
        assert(all.take(index as int) =~= all);
        Ok(segments)
    }
}

proof fn lemma_rules_stop(root: Seq<Seq<char>>, rules: Seq<FoundRuleView>, count: int)
    requires
        0 <= count <= rules.len(),
        rule_segments_of(root, rules.take(count)) is Err,
    ensures
        rule_segments_of(root, rules) == rule_segments_of(root, rules.take(count)),
    decreases rules.len(),
{
    if count < rules.len() {
        assert(rules.drop_last().take(count) =~= rules.take(count));
        lemma_rules_stop(root, rules.drop_last(), count);
    } else {
        assert(rules.take(count) =~= rules);
    }
}

fn first_components(components: &Vec<String>, count: usize) -> (first: Vec<String>)
    requires
        count <= components@.len(),
    ensures
        views(first@) == views(components@).take(count as int),
{
    let mut first: Vec<String> = Vec::new();
    let mut index: usize = 0;
    assert(views(first@) =~= views(components@).take(0));
    while index < count
        invariant
            index <= count <= components@.len(),
            views(first@) == views(components@).take(index as int),
        decreases count - index,
    {
        let component = components[index].clone();
        proof {
            lemma_views_push(first@, component);
            assert(views(components@).take(index as int + 1) =~= views(components@).take(
                index as int,
            ).push(component@));
        }
        first.push(component);
        index = index + 1;
    }
    first
}

fn last_components(components: &Vec<String>, from: usize) -> (last: Vec<String>)
    requires
        from <= components@.len(),
    ensures
        views(last@) == views(components@).skip(from as int),
{
    let mut last: Vec<String> = Vec::new();
    let mut index: usize = from;
    assert(views(last@) =~= views(components@).subrange(from as int, from as int));
    while index < components.len()
        invariant
            from <= index <= components@.len(),
            views(last@) == views(components@).subrange(from as int, index as int),
        decreases components@.len() - index,
    {
        let component = components[index].clone();
        proof {
            lemma_views_push(last@, component);
            assert(views(components@).subrange(from as int, index as int + 1) =~= views(
                components@,
            ).subrange(from as int, index as int).push(component@));
        }
        last.push(component);
        index = index + 1;
    }
    assert(views(components@).subrange(from as int, index as int) =~= views(components@).skip(
        from as int,
    ));
    last
}

fn rule_segment(root: &Vec<String>, rule: &FoundRule) -> (segment: Result<PromptSegment, ContextError>)
    ensures
        crate::datum::res_view(segment) == rule_segment_of(views(root@), rule@),
{
    match &rule.resolved {
        Err(message) => Err(
            ContextError::Path(
                rule.shown.clone().concat(": ").concat(message.as_str()),
            ),
        ),
        Ok(path) => {
            if !is_inside(&path.components, root) {
                return Err(
                    ContextError::Path(
                        "rule file `".to_owned().concat(rule.shown.as_str()).concat(
                            "` resolves outside project root",
                        ),
                    ),
                );
            }
            match &rule.text {
                Err(message) => Err(
                    ContextError::Read(path.shown.clone().concat(": ").concat(message.as_str())),
                ),
                Ok(text) => {
                    assert(views(root@).len() == root@.len());
                    assert(views(path.components@).len() == path.components@.len());
                    let below = last_components(&path.components, root.len());
                    Ok(PromptSegment::new(PromptLayer::Rules, join(&below, "/"), text.clone()))
                },
            }
        },
    }
}

/// Holds a path that the host resolved against being a directory. `resolved` is the
/// path that it resolves to, or why it could not be resolved.
pub fn canonical_directory(
    shown: &str,
    resolved: Result<ResolvedPath, String>,
    is_directory: bool,
) -> (directory: Result<ResolvedPath, ContextError>)
    ensures
        match directory {
            Ok(path) => resolved == Ok::<ResolvedPath, String>(path) && is_directory,
            Err(error) => match resolved {
                Err(message) => error@ == ContextErrorView::Path(shown@ + ": "@ + message@),
                Ok(path) => !is_directory && error@ == ContextErrorView::Path(
                    "`"@ + path.shown@ + "` is not a directory"@,
                ),
            },
        },
{
    match resolved {
        Err(message) => Err(
            ContextError::Path(shown.to_owned().concat(": ").concat(message.as_str())),
        ),
        Ok(path) => {
            if !is_directory {
                return Err(
                    ContextError::Path(
                        "`".to_owned().concat(path.shown.as_str()).concat("` is not a directory"),
                    ),
                );
            }
            Ok(path)
        },
    }
}

proof fn lemma_rule_count(root: Seq<Seq<char>>, rules: Seq<FoundRuleView>)
    ensures
        rule_segments_of(root, rules) matches Ok(segments) ==> segments.len() == rules.len(),
    decreases rules.len(),
{
    if rules.len() > 0 {
        lemma_rule_count(root, rules.drop_last());
    }
}

/// Rules come from the project alone: every segment is what a file holds that resolves to a
/// path inside of the project root, one segment for each file and in their order.
pub proof fn law_rules_stay_in_the_root(
    root: Seq<Seq<char>>,
    rules: Seq<FoundRuleView>,
    segments: Seq<PromptSegmentView>,
    index: int,
)
    requires
        rule_segments_of(root, rules) == Ok::<Seq<PromptSegmentView>, ContextErrorView>(segments),
        0 <= index < segments.len(),
    ensures
        segments.len() == rules.len(),
        segments[index].layer == PromptLayer::Rules,
        rules[index].text == Ok::<Seq<char>, Seq<char>>(segments[index].text),
        rules[index].resolved matches Ok((_, components)) && lies_in(components, root),
    decreases rules.len(),
{
    lemma_rule_count(root, rules);
    if index < segments.len() - 1 {
        let front = segments.drop_last();
        assert(rule_segments_of(root, rules.drop_last())->Ok_0 =~= front);
        law_rules_stay_in_the_root(root, rules.drop_last(), front, index);
        assert(rules.drop_last()[index] == rules[index]);
    }
}

} // verus!
