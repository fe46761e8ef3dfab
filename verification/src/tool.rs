//! Tool definitions, outputs and errors, and the registry of tools.

use vstd::prelude::*;
use vstd::string::*;

use crate::datum::{lemma_views_push, opt_view, snapshot_opt, views, Datum};
use crate::id::{ThreadId, TurnId};
use crate::json::{Json, JsonView};
use crate::keyed::{ascending, key_list, keyed_view, snapshot_keyed, Keyed};
use crate::text::{blank, is_blank};

verus! {

/// What the model is told of a tool.
#[derive(Debug, PartialEq, Eq)]
pub struct ToolDefinition {
    pub name: String,
    pub description: String,
    pub input_schema: Json,
}

/// The model of [`ToolDefinition`].
#[verifier::ext_equal]
pub ghost struct ToolDefinitionView {
    pub name: Seq<char>,
    pub description: Seq<char>,
    pub input_schema: JsonView,
}

impl View for ToolDefinition {
    type V = ToolDefinitionView;

    open spec fn view(&self) -> ToolDefinitionView {
        ToolDefinitionView {
            name: self.name@,
            description: self.description@,
            input_schema: self.input_schema@,
        }
    }
}

impl Datum for ToolDefinition {
    fn snapshot(&self) -> (copy: Self) {
        ToolDefinition {
            name: self.name.snapshot(),
            description: self.description.snapshot(),
            input_schema: self.input_schema.snapshot(),
        }
    }

    fn same(&self, other: &Self) -> (equal: bool) {
        self.name.same(&other.name) && self.description.same(&other.description)
            && self.input_schema.same(&other.input_schema)
    }
}

impl Clone for ToolDefinition {
    fn clone(&self) -> (copy: Self)
        ensures
            copy@ == self@,
    {
        self.snapshot()
    }
}

impl ToolDefinition {
    pub fn new(name: String, description: String, input_schema: Json) -> (definition: Self)
        ensures
            definition@ == (ToolDefinitionView {
                name: name@,
                description: description@,
                input_schema: input_schema@,
            }),
    {
        ToolDefinition { name, description, input_schema }
    }
}

/// What an execution returned.
#[derive(Debug, PartialEq, Eq)]
pub struct ToolOutput {
    pub value: Json,
}

/// The model of [`ToolOutput`].
#[verifier::ext_equal]
pub ghost struct ToolOutputView {
    pub value: JsonView,
}

impl View for ToolOutput {
    type V = ToolOutputView;

    open spec fn view(&self) -> ToolOutputView {
        ToolOutputView {
            value: self.value@,
        }
    }
}

impl Datum for ToolOutput {
    fn snapshot(&self) -> (copy: Self) {
        ToolOutput {
            value: self.value.snapshot(),
        }
    }

    fn same(&self, other: &Self) -> (equal: bool) {
        self.value.same(&other.value)
    }
}

impl Clone for ToolOutput {
    fn clone(&self) -> (copy: Self)
        ensures
            copy@ == self@,
    {
        self.snapshot()
    }
}

impl ToolOutput {
    pub fn new(value: Json) -> (output: Self)
        ensures
            output@ == (ToolOutputView { value: value@ }),
    {
        ToolOutput { value }
    }
}

/// Why a tool did not return an output.
#[derive(Debug, PartialEq, Eq)]
pub enum ToolError {
    InvalidArguments(String),
    Execution(String),
    ExecutorUnavailable(String),
    /// The execution was interrupted and may have changed something.
    OutcomeUnknown(String),
    Cancelled,
}

/// The model of [`ToolError`].
#[verifier::ext_equal]
pub ghost enum ToolErrorView {
    InvalidArguments(Seq<char>),
    Execution(Seq<char>),
    ExecutorUnavailable(Seq<char>),
    OutcomeUnknown(Seq<char>),
    Cancelled,
}

impl View for ToolError {
    type V = ToolErrorView;

    open spec fn view(&self) -> ToolErrorView {
        match *self {
            ToolError::InvalidArguments(x0) => ToolErrorView::InvalidArguments(x0@),
            ToolError::Execution(x0) => ToolErrorView::Execution(x0@),
            ToolError::ExecutorUnavailable(x0) => ToolErrorView::ExecutorUnavailable(x0@),
            ToolError::OutcomeUnknown(x0) => ToolErrorView::OutcomeUnknown(x0@),
            ToolError::Cancelled => ToolErrorView::Cancelled,
        }
    }
}

impl Datum for ToolError {
    fn snapshot(&self) -> (copy: Self) {
        match self {
            ToolError::InvalidArguments(x0) => ToolError::InvalidArguments(x0.snapshot()),
            ToolError::Execution(x0) => ToolError::Execution(x0.snapshot()),
            ToolError::ExecutorUnavailable(x0) => ToolError::ExecutorUnavailable(x0.snapshot()),
            ToolError::OutcomeUnknown(x0) => ToolError::OutcomeUnknown(x0.snapshot()),
            ToolError::Cancelled => ToolError::Cancelled,
        }
    }

    fn same(&self, other: &Self) -> (equal: bool) {
        match (self, other) {
            (ToolError::InvalidArguments(x0), ToolError::InvalidArguments(y0)) => x0.same(y0),
            (ToolError::Execution(x0), ToolError::Execution(y0)) => x0.same(y0),
            (ToolError::ExecutorUnavailable(x0), ToolError::ExecutorUnavailable(y0)) => x0.same(y0),
            (ToolError::OutcomeUnknown(x0), ToolError::OutcomeUnknown(y0)) => x0.same(y0),
            (ToolError::Cancelled, ToolError::Cancelled) => true,
            _ => false,
        }
    }
}

impl Clone for ToolError {
    fn clone(&self) -> (copy: Self)
        ensures
            copy@ == self@,
    {
        self.snapshot()
    }
}

/// The message of a tool failure.
pub open spec fn tool_error_text(error: ToolErrorView) -> Seq<char> {
    match error {
        ToolErrorView::InvalidArguments(detail) => "invalid tool arguments: "@ + detail,
        ToolErrorView::Execution(detail) => "tool execution failed: "@ + detail,
        ToolErrorView::ExecutorUnavailable(detail) => "tool executor is unavailable: "@ + detail,
        ToolErrorView::OutcomeUnknown(detail) => "tool outcome is unknown: "@ + detail,
        ToolErrorView::Cancelled => "tool execution was cancelled"@,
    }
}

impl ToolError {
    pub fn to_text(&self) -> (text: String)
        ensures
            text@ == tool_error_text(self@),
    {
        match self {
            ToolError::InvalidArguments(detail) => {
                "invalid tool arguments: ".to_owned().concat(detail.as_str())
            },
            ToolError::Execution(detail) => {
                "tool execution failed: ".to_owned().concat(detail.as_str())
            },
            ToolError::ExecutorUnavailable(detail) => {
                "tool executor is unavailable: ".to_owned().concat(detail.as_str())
            },
            ToolError::OutcomeUnknown(detail) => {
                "tool outcome is unknown: ".to_owned().concat(detail.as_str())
            },
            ToolError::Cancelled => "tool execution was cancelled".to_owned(),
        }
    }
}

/// Why a tool was not registered.
#[derive(Debug, PartialEq, Eq)]
pub enum RegistryError {
    EmptyName,
    Duplicate(String),
}

/// The model of [`RegistryError`].
#[verifier::ext_equal]
pub ghost enum RegistryErrorView {
    EmptyName,
    Duplicate(Seq<char>),
}

impl View for RegistryError {
    type V = RegistryErrorView;

    open spec fn view(&self) -> RegistryErrorView {
        match *self {
            RegistryError::EmptyName => RegistryErrorView::EmptyName,
            RegistryError::Duplicate(x0) => RegistryErrorView::Duplicate(x0@),
        }
    }
}

impl Datum for RegistryError {
    fn snapshot(&self) -> (copy: Self) {
        match self {
            RegistryError::EmptyName => RegistryError::EmptyName,
            RegistryError::Duplicate(x0) => RegistryError::Duplicate(x0.snapshot()),
        }
    }

    fn same(&self, other: &Self) -> (equal: bool) {
        match (self, other) {
            (RegistryError::EmptyName, RegistryError::EmptyName) => true,
            (RegistryError::Duplicate(x0), RegistryError::Duplicate(y0)) => x0.same(y0),
            _ => false,
        }
    }
}

impl Clone for RegistryError {
    fn clone(&self) -> (copy: Self)
        ensures
            copy@ == self@,
    {
        self.snapshot()
    }
}

/// The message of a refused registration.
pub open spec fn registry_error_text(error: RegistryErrorView) -> Seq<char> {
    match error {
        RegistryErrorView::EmptyName => "tool name cannot be empty"@,
        RegistryErrorView::Duplicate(name) => "tool `"@ + name + "` is already registered"@,
    }
}

impl RegistryError {
    pub fn to_text(&self) -> (text: String)
        ensures
            text@ == registry_error_text(self@),
    {
        match self {
            RegistryError::EmptyName => "tool name cannot be empty".to_owned(),
            RegistryError::Duplicate(name) => {
                "tool `".to_owned().concat(name.as_str()).concat("` is already registered")
            },
        }
    }
}

/// What a tool is told about the run that it belongs to.
#[derive(Debug, PartialEq, Eq)]
pub struct ToolExecutionContext {
    pub thread_id: ThreadId,
    pub turn_id: TurnId,
    pub workspace: Option<String>,
    pub metadata: Keyed<String>,
}

/// The model of [`ToolExecutionContext`].
#[verifier::ext_equal]
pub ghost struct ToolExecutionContextView {
    pub thread_id: Seq<char>,
    pub turn_id: Seq<char>,
    pub workspace: Option<Seq<char>>,
    pub metadata: Map<Seq<char>, Seq<char>>,
}

impl View for ToolExecutionContext {
    type V = ToolExecutionContextView;

    open spec fn view(&self) -> ToolExecutionContextView {
        ToolExecutionContextView {
            thread_id: self.thread_id@,
            turn_id: self.turn_id@,
            workspace: opt_view(self.workspace),
            metadata: keyed_view(self.metadata@),
        }
    }
}

impl Clone for ToolExecutionContext {
    fn clone(&self) -> (copy: Self)
        ensures
            copy@ == self@,
    {
        ToolExecutionContext {
            thread_id: self.thread_id.clone(),
            turn_id: self.turn_id.clone(),
            workspace: snapshot_opt(&self.workspace),
            metadata: snapshot_keyed(&self.metadata),
        }
    }
}

/// A registered tool: what the model is told of it, and what runs it.
#[derive(Debug)]
struct RegisteredTool<T> {
    definition: ToolDefinition,
    implementation: T,
}

/// The tools of a runtime, each under the name of its definition. `T` is whatever
/// the host runs a tool with.
#[derive(Debug)]
pub struct ToolRegistry<T> {
    tools: Keyed<RegisteredTool<T>>,
}

impl<T> View for ToolRegistry<T> {
    type V = Map<Seq<char>, (ToolDefinitionView, T)>;

    closed spec fn view(&self) -> Map<Seq<char>, (ToolDefinitionView, T)> {
        self.tools@.map_values(
            |registered: RegisteredTool<T>| (registered.definition@, registered.implementation),
        )
    }
}

impl<T: Clone> Clone for ToolRegistry<T> {
    fn clone(&self) -> (copy: Self)
        ensures
            copy@.dom() == self@.dom(),
            forall|name: Seq<char>| #[trigger]
                self@.contains_key(name) ==> copy@[name].0 == self@[name].0 && cloned::<T>(
                    self@[name].1,
                    copy@[name].1,
                ),
    {
        proof {
            use_type_invariant(self);
        }
        let count: usize = self.tools.len();
        let ghost keys = self.tools.keys();
        let ghost map = self.tools@;
        let mut tools: Keyed<RegisteredTool<T>> = Keyed::new();
        let mut at: usize = 0;
        while at < count
            invariant
                at <= count,
                count == keys.len(),
                keys == self.tools.keys(),
                ascending(keys),
                keys.no_duplicates(),
                keys.to_set() == map.dom(),
                map == self.tools@,
                tools@.dom() == keys.take(at as int).to_set(),
                forall|i: int|
                    0 <= i < at ==> tools@[#[trigger] keys[i]].definition@
                        == map[keys[i]].definition@ && cloned::<T>(
                        map[keys[i]].implementation,
                        tools@[keys[i]].implementation,
                    ),
            decreases count - at,
        {
            let key = self.tools.key_at(at);
            let registered = self.tools.value_at(at);
            let ghost before = tools@;
            let copy = RegisteredTool {
                definition: registered.definition.clone(),
                implementation: registered.implementation.clone(),
            };
            let _ = tools.insert(key.clone(), copy);
            proof {
                let past = keys.take(at as int);
                let grown = keys.take(at as int + 1);
                assert(grown =~= past.push(keys[at as int]));
                assert(grown.to_set() =~= past.to_set().insert(keys[at as int])) by {
                    assert forall|name: Seq<char>| grown.contains(name) == (past.contains(name)
                        || name == keys[at as int]) by {
                        if past.contains(name) {
                            let i = choose|i: int| 0 <= i < past.len() && past[i] == name;
                            assert(grown[i] == name);
                        }
                        if name == keys[at as int] {
                            assert(grown[at as int] == name);
                        }
                    }
                }
                assert forall|i: int| 0 <= i < at implies keys[i] != keys[at as int] by {}
            }
            at = at + 1;
        }
        proof {
            assert(keys.take(at as int) =~= keys);
            assert forall|name: Seq<char>| #[trigger] tools@.contains_key(name) implies
                tools@[name].definition@.name == name by {
                assert(keys.to_set().contains(name));
                let i = choose|i: int| 0 <= i < keys.len() && keys[i] == name;
                assert(tools@[keys[i]].definition@ == map[keys[i]].definition@);
                assert(map.contains_key(name));
            }
        }
        let copy = ToolRegistry { tools };
        proof {
            assert(copy@.dom() =~= self@.dom());
            assert forall|name: Seq<char>| #[trigger] self@.contains_key(name) implies copy@[name].0
                == self@[name].0 && cloned::<T>(self@[name].1, copy@[name].1) by {
                assert(keys.to_set().contains(name));
                let i = choose|i: int| 0 <= i < keys.len() && keys[i] == name;
                assert(tools@[keys[i]].definition@ == map[keys[i]].definition@);
            }
        }
        copy
    }
}

/// The definitions of those names that are registered, in the order of the names.
pub open spec fn definitions_of<T>(
    tools: Map<Seq<char>, (ToolDefinitionView, T)>,
    names: Seq<Seq<char>>,
) -> Seq<ToolDefinitionView>
    decreases names.len(),
{
    if names.len() == 0 {
        Seq::empty()
    } else {
        let rest = definitions_of(tools, names.drop_last());
        if tools.contains_key(names.last()) {
            rest.push(tools[names.last()].0)
        } else {
            rest
        }
    }
}

impl<T> ToolRegistry<T> {
    #[verifier::type_invariant]
    spec fn named(self) -> bool {
        forall|name: Seq<char>| #[trigger]
            self.tools@.contains_key(name) ==> self.tools@[name].definition.name@ == name
    }

    pub fn new() -> (registry: Self)
        ensures
            registry@ == Map::<Seq<char>, (ToolDefinitionView, T)>::empty(),
    {
        let registry = ToolRegistry { tools: Keyed::new() };
        assert(registry@ =~= Map::<Seq<char>, (ToolDefinitionView, T)>::empty());
        registry
    }

    /// Adds a tool under the name of its definition. A blank name and a name that
    /// is taken are refused, and nothing changes.
    pub fn register(&mut self, definition: ToolDefinition, implementation: T) -> (result: Result<
        (),
        RegistryError,
    >)
        ensures
            match result {
                Ok(()) => !blank(definition.name@) && !old(self)@.contains_key(definition.name@)
                    && final(self)@ == old(self)@.insert(
                    definition.name@,
                    (definition@, implementation),
                ),
                Err(error) => final(self)@ == old(self)@ && error@ == (if blank(definition.name@) {
                    RegistryErrorView::EmptyName
                } else {
                    RegistryErrorView::Duplicate(definition.name@)
                }) && (blank(definition.name@) || old(self)@.contains_key(definition.name@)),
            },
    {
        if is_blank(definition.name.as_str()) {
            return Err(RegistryError::EmptyName);
        }
        if self.tools.contains(definition.name.as_str()) {
            return Err(RegistryError::Duplicate(definition.name));
        }
        proof {
            use_type_invariant(&*self);
        }
        let ghost before = self.tools@;
        let ghost name = definition.name@;
        let ghost entry = (definition@, implementation);
        let mut tools: Keyed<RegisteredTool<T>> = Keyed::new();
        std::mem::swap(&mut tools, &mut self.tools);
        let key = definition.name.clone();
        let _ = tools.insert(key, RegisteredTool { definition, implementation });
        self.tools = tools;
        assert(self@ =~= old(self)@.insert(name, entry));
        Ok(())
    }

    /// What runs the tool of a name.
    pub fn get(&self, name: &str) -> (found: Option<&T>)
        ensures
            match found {
                Some(implementation) => self@.contains_key(name@) && *implementation
                    == self@[name@].1,
                None => !self@.contains_key(name@),
            },
    {
        match self.tools.get(name) {
            Some(registered) => Some(&registered.implementation),
            None => None,
        }
    }

    /// The names of the tools, in ascending order.
    pub fn names(&self) -> (names: Vec<String>)
        ensures
            ascending(views(names@)),
            views(names@).to_set() == self@.dom(),
    {
        let names = key_list(&self.tools);
        assert(self@.dom() =~= self.tools@.dom());
        names
    }

    /// The definitions of those names that are registered, in the order of the
    /// names. Each definition carries the name that it was asked under.
    pub fn definitions_for(&self, names: &Vec<String>) -> (definitions: Vec<ToolDefinition>)
        ensures
            views(definitions@) == definitions_of(self@, views(names@)),
            forall|i: int|
                0 <= i < definitions@.len() ==> views(names@).contains(
                    #[trigger] views(definitions@)[i].name,
                ),
    {
        proof {
            use_type_invariant(self);
        }
        let ghost wanted = views(names@);
        let mut definitions: Vec<ToolDefinition> = Vec::new();
        let mut index: usize = 0;
        assert(wanted.take(0) =~= Seq::empty());
        assert(views(definitions@) =~= Seq::empty());
        while index < names.len()
            invariant
                index <= names@.len(),
                wanted == views(names@),
                self.named(),
                views(definitions@) == definitions_of(self@, wanted.take(index as int)),
                forall|i: int|
                    0 <= i < definitions@.len() ==> wanted.contains(
                        #[trigger] views(definitions@)[i].name,
                    ),
            decreases names@.len() - index,
        {
            let ghost before = definitions@;
            proof {
                let grown = wanted.take(index as int + 1);
                assert(grown.drop_last() =~= wanted.take(index as int));
                assert(grown.last() == names@[index as int]@);
                assert(wanted[index as int] == names@[index as int]@);
            }
            match self.tools.get(names[index].as_str()) {
                Some(registered) => {
                    let definition = registered.definition.clone();
                    proof {
                        lemma_views_push(before, definition);
                    }
                    definitions.push(definition);
                    proof {
                        assert forall|i: int| 0 <= i < definitions@.len() implies wanted.contains(
                            #[trigger] views(definitions@)[i].name,
                        ) by {
                            if i < before.len() {
                                assert(views(definitions@)[i] == views(before)[i]);
                            } else {
                                assert(views(definitions@)[i].name == wanted[index as int]);
                            }
                        }
                    }
                },
                None => {},
            }
            index = index + 1;
        }
        assert(wanted.take(index as int) =~= wanted);
        definitions
    }
}

/// A tool is found after it was registered, and no other tool is lost.
pub proof fn law_registered_tool_is_found<T>(
    tools: Map<Seq<char>, (ToolDefinitionView, T)>,
    definition: ToolDefinitionView,
    implementation: T,
    name: Seq<char>,
)
    ensures
        tools.insert(definition.name, (definition, implementation)).contains_key(definition.name),
        tools.contains_key(name) ==> tools.insert(
            definition.name,
            (definition, implementation),
        ).contains_key(name),
        definitions_of(
            tools.insert(definition.name, (definition, implementation)),
            seq![definition.name],
        ) == seq![definition],
{
    let grown = tools.insert(definition.name, (definition, implementation));
    let asked = seq![definition.name];
    assert(asked.drop_last() =~= Seq::empty());
    assert(definitions_of(grown, asked.drop_last()) =~= Seq::empty());
    assert(definitions_of(grown, asked) =~= seq![definition]);
}

} // verus!
