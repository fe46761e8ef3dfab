//! Which tools may be used, and how far.

use vstd::prelude::*;
use vstd::string::*;

use crate::datum::{lemma_views_push, opt_view, same_opt, snapshot_opt, views, Datum};
use crate::keyed::{ascending, keyed_view, snapshot_keyed, Keyed};
use crate::text::precedes;

verus! {

/// How far a tool may be used, from the strictest to the widest.
#[derive(Clone, Copy, Debug, PartialEq, Eq, PartialOrd, Ord, Structural)]
pub enum Access {
    Deny,
    Ask,
    Allow,
}

/// The position of a grant in the order from strict to wide.
pub open spec fn width(access: Access) -> nat {
    match access {
        Access::Deny => 0,
        Access::Ask => 1,
        Access::Allow => 2,
    }
}

/// The stricter of two grants.
pub open spec fn stricter(left: Access, right: Access) -> Access {
    if width(left) <= width(right) {
        left
    } else {
        right
    }
}

impl Access {
    /// Returns the stricter of two grants.
    pub fn restrict(self, other: Self) -> (access: Self)
        ensures
            access == stricter(self, other),
    {
        match (self, other) {
            (Access::Deny, _) => Access::Deny,
            (_, Access::Deny) => Access::Deny,
            (Access::Ask, _) => Access::Ask,
            (_, Access::Ask) => Access::Ask,
            _ => Access::Allow,
        }
    }
}

/// Who asks, and from where.
#[derive(Debug, PartialEq, Eq)]
pub struct PolicyContext {
    pub principal: Option<String>,
    pub channel: Option<String>,
    pub agent: Option<String>,
    pub sandbox: Option<String>,
}

/// The model of [`PolicyContext`].
#[verifier::ext_equal]
pub ghost struct PolicyContextView {
    pub principal: Option<Seq<char>>,
    pub channel: Option<Seq<char>>,
    pub agent: Option<Seq<char>>,
    pub sandbox: Option<Seq<char>>,
}

impl View for PolicyContext {
    type V = PolicyContextView;

    open spec fn view(&self) -> PolicyContextView {
        PolicyContextView {
            principal: opt_view(self.principal),
            channel: opt_view(self.channel),
            agent: opt_view(self.agent),
            sandbox: opt_view(self.sandbox),
        }
    }
}

impl Datum for PolicyContext {
    fn snapshot(&self) -> (copy: Self) {
        PolicyContext {
            principal: snapshot_opt(&self.principal),
            channel: snapshot_opt(&self.channel),
            agent: snapshot_opt(&self.agent),
            sandbox: snapshot_opt(&self.sandbox),
        }
    }

    fn same(&self, other: &Self) -> (equal: bool) {
        same_opt(&self.principal, &other.principal) && same_opt(&self.channel, &other.channel)
            && same_opt(&self.agent, &other.agent) && same_opt(&self.sandbox, &other.sandbox)
    }
}

impl Clone for PolicyContext {
    fn clone(&self) -> (copy: Self)
        ensures
            copy@ == self@,
    {
        self.snapshot()
    }
}

impl Default for PolicyContext {
    fn default() -> (context: Self)
        ensures
            context@ == (PolicyContextView { principal: None, channel: None, agent: None, sandbox: None }),
    {
        PolicyContext { principal: None, channel: None, agent: None, sandbox: None }
    }
}

/// Decides how far each tool may be used.
pub trait ToolPolicy {
    /// The grant for a tool in a context.
    spec fn grants(&self, tool_name: Seq<char>, context: PolicyContextView) -> Access;

    fn access(&self, tool_name: &str, context: &PolicyContext) -> (access: Access)
        ensures
            access == self.grants(tool_name@, context@),
    ;
}

/// Simple declarative policy. Safe by default: unmentioned tools are denied.
#[derive(Debug, PartialEq, Eq)]
pub struct CapabilityPolicy {
    default: Access,
    tools: Keyed<Access>,
}

/// The model of [`CapabilityPolicy`].
#[verifier::ext_equal]
pub ghost struct CapabilityPolicyView {
    pub default: Access,
    pub tools: Map<Seq<char>, Access>,
}

impl View for CapabilityPolicy {
    type V = CapabilityPolicyView;

    closed spec fn view(&self) -> CapabilityPolicyView {
        CapabilityPolicyView { default: self.default, tools: self.tools@ }
    }
}

impl Clone for CapabilityPolicy {
    fn clone(&self) -> (copy: Self)
        ensures
            copy@ == self@,
    {
        let tools = snapshot_keyed(&self.tools);
        proof {
            assert(keyed_view(tools@) =~= tools@);
            assert(keyed_view(self.tools@) =~= self.tools@);
        }
        CapabilityPolicy { default: self.default, tools }
    }
}

impl Default for CapabilityPolicy {
    fn default() -> (policy: Self)
        ensures
            policy@ == (CapabilityPolicyView { default: Access::Deny, tools: Map::empty() }),
    {
        CapabilityPolicy { default: Access::Deny, tools: Keyed::new() }
    }
}

impl CapabilityPolicy {
    /// A policy that grants nothing.
    pub fn deny_by_default() -> (policy: Self)
        ensures
            policy@ == (CapabilityPolicyView { default: Access::Deny, tools: Map::empty() }),
    {
        CapabilityPolicy { default: Access::Deny, tools: Keyed::new() }
    }

    /// Sets the grant of the tools that are not mentioned.
    pub fn with_default(self, access: Access) -> (policy: Self)
        ensures
            policy@ == (CapabilityPolicyView { default: access, ..self@ }),
    {
        CapabilityPolicy { default: access, tools: self.tools }
    }

    /// Sets the grant of one tool.
    pub fn grant(self, tool_name: String, access: Access) -> (policy: Self)
        ensures
            policy@ == (CapabilityPolicyView {
                tools: self@.tools.insert(tool_name@, access),
                ..self@
            }),
    {
        let mut tools = self.tools;
        let _ = tools.insert(tool_name, access);
        CapabilityPolicy { default: self.default, tools }
    }
}

impl ToolPolicy for CapabilityPolicy {
    open spec fn grants(&self, tool_name: Seq<char>, context: PolicyContextView) -> Access {
        if self@.tools.contains_key(tool_name) {
            self@.tools[tool_name]
        } else {
            self@.default
        }
    }

    fn access(&self, tool_name: &str, context: &PolicyContext) -> (access: Access) {
        match self.tools.get(tool_name) {
            Some(access) => *access,
            None => self.default,
        }
    }
}

/// The concrete per-run projection. Only non-denied entries are visible to the
/// model, but denied entries remain queryable for fail-closed execution checks.
#[derive(Debug, PartialEq, Eq)]
pub struct CapabilityProjection {
    entries: Keyed<Access>,
}

impl View for CapabilityProjection {
    type V = Map<Seq<char>, Access>;

    closed spec fn view(&self) -> Map<Seq<char>, Access> {
        self.entries@
    }
}

/// The grant of a tool in a projection. What is not mentioned is denied.
pub open spec fn projected_access(entries: Map<Seq<char>, Access>, tool_name: Seq<char>) -> Access {
    if entries.contains_key(tool_name) {
        entries[tool_name]
    } else {
        Access::Deny
    }
}

/// Whether `names` are the tools of a projection that are not denied, in ascending
/// order.
pub open spec fn lists_visible(names: Seq<Seq<char>>, entries: Map<Seq<char>, Access>) -> bool {
    &&& ascending(names)
    &&& forall|name: Seq<char>| #[trigger]
        names.contains(name) <==> projected_access(entries, name) != Access::Deny
}

/// The keys whose entry is not denied, in their order.
spec fn undenied(keys: Seq<Seq<char>>, entries: Map<Seq<char>, Access>) -> Seq<Seq<char>>
    decreases keys.len(),
{
    if keys.len() == 0 {
        Seq::empty()
    } else {
        let rest = undenied(keys.drop_last(), entries);
        if entries[keys.last()] != Access::Deny {
            rest.push(keys.last())
        } else {
            rest
        }
    }
}

proof fn lemma_undenied(keys: Seq<Seq<char>>, entries: Map<Seq<char>, Access>)
    requires
        ascending(keys),
    ensures
        ascending(undenied(keys, entries)),
        forall|name: Seq<char>| #[trigger]
            undenied(keys, entries).contains(name) <==> keys.contains(name) && entries[name]
                != Access::Deny,
    decreases keys.len(),
{
    let found = undenied(keys, entries);
    if keys.len() > 0 {
        let front = keys.drop_last();
        let rest = undenied(front, entries);
        assert forall|i: int, j: int| 0 <= i < j < front.len() implies precedes(
            #[trigger] front[i],
            #[trigger] front[j],
        ) by {
            assert(precedes(keys[i], keys[j]));
        }
        lemma_undenied(front, entries);
        assert forall|name: Seq<char>| #[trigger]
            found.contains(name) <==> keys.contains(name) && entries[name] != Access::Deny by {
            assert(front.push(keys.last()) =~= keys);
            if rest.contains(name) {
                let i = choose|i: int| 0 <= i < rest.len() && rest[i] == name;
                assert(found[i] == name);
                let k = choose|k: int| 0 <= k < front.len() && front[k] == name;
                assert(keys[k] == name);
            }
            if keys.contains(name) && entries[name] != Access::Deny {
                let k = choose|k: int| 0 <= k < keys.len() && keys[k] == name;
                if k < front.len() {
                    assert(front[k] == name);
                    assert(rest.contains(name));
                } else {
                    assert(found.last() == name);
                }
            }
            if found.contains(name) && !rest.contains(name) {
                assert(name == keys.last());
            }
        }
        assert forall|i: int, j: int| 0 <= i < j < found.len() implies precedes(
            #[trigger] found[i],
            #[trigger] found[j],
        ) by {
            if j < rest.len() {
                assert(precedes(rest[i], rest[j]));
            } else {
                assert(rest.contains(rest[i]));
                let k = choose|k: int| 0 <= k < front.len() && front[k] == rest[i];
                assert(precedes(keys[k], keys[keys.len() - 1]));
            }
        }
    }
}

impl Default for CapabilityProjection {
    /// The projection without entries: everything is denied.
    fn default() -> (projection: Self)
        ensures
            projection@ == Map::<Seq<char>, Access>::empty(),
    {
        CapabilityProjection { entries: Keyed::new() }
    }
}

impl CapabilityProjection {
    /// The grant of a tool.
    pub fn access(&self, tool_name: &str) -> (access: Access)
        ensures
            access == projected_access(self@, tool_name@),
    {
        match self.entries.get(tool_name) {
            Some(access) => *access,
            None => Access::Deny,
        }
    }

    /// The tools that are not denied, in ascending order.
    pub fn visible_names(&self) -> (names: Vec<String>)
        ensures
            lists_visible(views(names@), self@),
    {
        let count: usize = self.entries.len();
        let ghost keys = self.entries.keys();
        let mut names: Vec<String> = Vec::new();
        let mut index: usize = 0;
        assert(keys.take(0) =~= Seq::empty());
        assert(views(names@) =~= Seq::empty());
        while index < count
            invariant
                index <= count,
                count == keys.len(),
                keys == self.entries.keys(),
                self@ == self.entries@,
                views(names@) == undenied(keys.take(index as int), self@),
            decreases count - index,
        {
            let access = *self.entries.value_at(index);
            let key = self.entries.key_at(index);
            proof {
                let grown = keys.take(index as int + 1);
                assert(grown.drop_last() =~= keys.take(index as int));
                assert(grown.last() == key@);
            }
            if access != Access::Deny {
                let name = key.clone();
                proof {
                    lemma_views_push(names@, name);
                }
                names.push(name);
            }
            index = index + 1;
        }
        proof {
            assert(keys.take(index as int) =~= keys);
            lemma_undenied(keys, self@);
            assert forall|name: Seq<char>| #[trigger]
                views(names@).contains(name) <==> projected_access(self@, name) != Access::Deny by {
                assert(self@.dom().contains(name) == keys.to_set().contains(name));
            }
        }
        names
    }

    /// All entries, in ascending order of the tools' names.
    pub fn entries(&self) -> (entries: &Keyed<Access>)
        ensures
            entries@ == self@,
    {
        &self.entries
    }
}

/// What a policy grants a tool within what a parent was granted.
pub open spec fn effective<P: ToolPolicy>(
    policy: &P,
    context: PolicyContextView,
    parent: Option<Map<Seq<char>, Access>>,
    tool_name: Seq<char>,
) -> Access {
    match parent {
        Some(entries) => stricter(
            policy.grants(tool_name, context),
            projected_access(entries, tool_name),
        ),
        None => policy.grants(tool_name, context),
    }
}

/// The projection of a policy on a list of tools.
pub open spec fn projection_of<P: ToolPolicy>(
    tool_names: Seq<Seq<char>>,
    policy: &P,
    context: PolicyContextView,
    parent: Option<Map<Seq<char>, Access>>,
) -> Map<Seq<char>, Access> {
    Map::new(
        |name: Seq<char>| tool_names.contains(name),
        |name: Seq<char>| effective(policy, context, parent, name),
    )
}

/// Computes model-visible capabilities and intersects them with a parent's
/// projection. This intersection is the hard invariant preventing a child
/// agent from expanding its parent's permissions.
pub fn project_capabilities<P: ToolPolicy>(
    tool_names: &Vec<String>,
    policy: &P,
    context: &PolicyContext,
    parent: Option<&CapabilityProjection>,
) -> (projection: CapabilityProjection)
    ensures
        projection@ == projection_of(
            views(tool_names@),
            policy,
            context@,
            (match parent {
                Some(outer) => Some(outer@),
                None => None,
            }),
        ),
{
    let ghost outer = match parent {
        Some(found) => Some(found@),
        None => None,
    };
    let ghost names = views(tool_names@);
    let mut entries: Keyed<Access> = Keyed::new();
    let mut index: usize = 0;
    assert(names.take(0) =~= Seq::empty());
    assert(entries@ =~= projection_of(names.take(0), policy, context@, outer));
    while index < tool_names.len()
        invariant
            index <= tool_names@.len(),
            names == views(tool_names@),
            outer == (match parent {
                Some(found) => Some(found@),
                None => None,
            }),
            entries@ == projection_of(names.take(index as int), policy, context@, outer),
        decreases tool_names@.len() - index,
    {
        let name = tool_names[index].as_str();
        let requested = policy.access(name, context);
        let granted = match parent {
            Some(found) => requested.restrict(found.access(name)),
            None => requested,
        };
        let _ = entries.insert(tool_names[index].clone(), granted);
        proof {
            let grown = names.take(index as int + 1);
            assert(grown =~= names.take(index as int).push(name@));
            assert forall|n: Seq<char>| #[trigger]
                grown.contains(n) <==> names.take(index as int).contains(n) || n == name@ by {
                if names.take(index as int).contains(n) {
                    let i = choose|i: int|
                        0 <= i < names.take(index as int).len() && names.take(index as int)[i] == n;
                    assert(grown[i] == n);
                }
                if n == name@ {
                    assert(grown[index as int] == n);
                }
            }
            assert(entries@ =~= projection_of(grown, policy, context@, outer));
        }
        index = index + 1;
    }
    assert(names.take(index as int) =~= names);
    CapabilityProjection { entries }
}

/// A child never gets more than its parent: whatever the policies grant, the
/// child's access to every tool is at most the parent's.
pub proof fn law_child_within_parent<P: ToolPolicy>(
    tool_names: Seq<Seq<char>>,
    policy: &P,
    context: PolicyContextView,
    parent: Map<Seq<char>, Access>,
    tool_name: Seq<char>,
)
    ensures
        width(
            projected_access(
                projection_of(tool_names, policy, context, Some(parent)),
                tool_name,
            ),
        ) <= width(projected_access(parent, tool_name)),
{
}

/// A tool that is denied to the parent stays invisible to the child.
pub proof fn law_denied_stays_invisible<P: ToolPolicy>(
    tool_names: Seq<Seq<char>>,
    policy: &P,
    context: PolicyContextView,
    parent: Map<Seq<char>, Access>,
    visible: Seq<Seq<char>>,
    tool_name: Seq<char>,
)
    requires
        lists_visible(visible, projection_of(tool_names, policy, context, Some(parent))),
        projected_access(parent, tool_name) == Access::Deny,
    ensures
        !visible.contains(tool_name),
{
    law_child_within_parent(tool_names, policy, context, parent, tool_name);
}

/// Restriction yields a grant that neither side exceeds, in whatever order.
pub proof fn law_restrict_is_a_meet(left: Access, right: Access, third: Access)
    ensures
        width(stricter(left, right)) <= width(left),
        width(stricter(left, right)) <= width(right),
        stricter(left, right) == stricter(right, left),
        stricter(left, left) == left,
        stricter(stricter(left, right), third) == stricter(left, stricter(right, third)),
{
}

impl View for Access {
    type V = Access;

    open spec fn view(&self) -> Access {
        *self
    }
}

impl Datum for Access {
    fn snapshot(&self) -> (copy: Self) {
        *self
    }

    fn same(&self, other: &Self) -> (equal: bool) {
        *self == *other
    }
}

impl Clone for CapabilityProjection {
    fn clone(&self) -> (copy: Self)
        ensures
            copy@ == self@,
    {
        let entries = snapshot_keyed(&self.entries);
        proof {
            assert(keyed_view(entries@) =~= entries@);
            assert(keyed_view(self.entries@) =~= self.entries@);
        }
        CapabilityProjection { entries }
    }
}

} // verus!
