//! Declarative agent types: what an `agent` node runs, and how it is configured.
use vstd::prelude::*;

use crate::json::{members, Json, JsonView};
use crate::text::{begins_with, chars_of, decimal, decimal_text, ends_in, opt_view, same, text_of, views};

verus! {

/// A reusable agent type: what the agent is, what it may use, and how far it
/// may go. Every field but `id` may be left empty.
#[derive(Debug, PartialEq, Eq)]
pub struct AgentDefinition {
    /// Stable id an `agent` node's `agent_ref` selects, unique within a graph.
    pub id: String,
    /// Human-readable name for editors and pickers; never an identity.
    pub name: String,
    /// What this agent is for.
    pub description: String,
    /// The agent's standing instructions, passed on verbatim.
    pub instructions: Option<String>,
    /// Preferred model id; absence means no preference.
    pub model: Option<String>,
    /// Preferred provider id.
    pub provider: Option<String>,
    /// Directory the agent should run in.
    pub working_dir: Option<String>,
    /// Advisory ceilings on the agent's loop.
    pub limits: AgentLimits,
    /// The tools this agent type may use, before any node-level narrowing.
    pub tools: Vec<ToolGrant>,
    /// Context composed into every run, in declaration order.
    pub context: Vec<ContextSource>,
    /// Free-form members for the harness.
    pub metadata: Vec<(String, Json)>,
}

#[verifier::ext_equal]
pub struct AgentDefinitionView {
    pub id: Seq<char>,
    pub name: Seq<char>,
    pub description: Seq<char>,
    pub instructions: Option<Seq<char>>,
    pub model: Option<Seq<char>>,
    pub provider: Option<Seq<char>>,
    pub working_dir: Option<Seq<char>>,
    pub limits: AgentLimits,
    pub tools: Seq<ToolGrantView>,
    pub context: Seq<ContextSourceView>,
    pub metadata: Seq<(Seq<char>, JsonView)>,
}

impl View for AgentDefinition {
    type V = AgentDefinitionView;

    open spec fn view(&self) -> AgentDefinitionView {
        AgentDefinitionView {
            id: self.id@,
            name: self.name@,
            description: self.description@,
            instructions: opt_view(self.instructions),
            model: opt_view(self.model),
            provider: opt_view(self.provider),
            working_dir: opt_view(self.working_dir),
            limits: self.limits,
            tools: views(self.tools@),
            context: views(self.context@),
            metadata: members(self.metadata@),
        }
    }
}

/// The definition that says nothing but its id.
pub open spec fn bare_definition(id: Seq<char>) -> AgentDefinitionView {
    AgentDefinitionView {
        id,
        name: Seq::empty(),
        description: Seq::empty(),
        instructions: None,
        model: None,
        provider: None,
        working_dir: None,
        limits: no_limits(),
        tools: Seq::empty(),
        context: Seq::empty(),
        metadata: Seq::empty(),
    }
}

impl AgentDefinition {
    /// A definition carrying nothing but an id: what an unresolved `agent_ref`
    /// becomes.
    pub fn new(id: &str) -> (r: Self)
        ensures
            r@ == bare_definition(id@),
    {
        let r = AgentDefinition {
            id: id.to_owned(),
            name: String::new(),
            description: String::new(),
            instructions: None,
            model: None,
            provider: None,
            working_dir: None,
            limits: AgentLimits::default(),
            tools: Vec::new(),
            context: Vec::new(),
            metadata: Vec::new(),
        };
        assert(r@ =~= bare_definition(id@));
        r
    }
}

/// Advisory bounds on an agent loop that the harness owns. A missing bound
/// means none was declared, not that the loop is unbounded.
#[derive(Debug, Clone, Copy, PartialEq, Eq, Structural)]
pub struct AgentLimits {
    /// Maximum model and tool iterations.
    pub max_steps: Option<u32>,
    /// Maximum individual tool invocations across the run.
    pub max_tool_calls: Option<u32>,
    /// Wall-clock budget, in seconds, for the whole agent run.
    pub max_seconds: Option<u32>,
}

pub open spec fn no_limits() -> AgentLimits {
    AgentLimits { max_steps: None, max_tool_calls: None, max_seconds: None }
}

/// `bound` is no looser than `than`: wherever `than` declares a ceiling,
/// `bound` declares one that is at most as high.
pub open spec fn at_most(bound: Option<u32>, than: Option<u32>) -> bool {
    than matches Some(t) ==> bound matches Some(b) && b <= t
}

/// The lower of two optional bounds, or whichever one is declared.
pub open spec fn lower_bound(a: Option<u32>, b: Option<u32>) -> Option<u32> {
    match (a, b) {
        (Some(x), Some(y)) => Some(
            if x <= y {
                x
            } else {
                y
            },
        ),
        (Some(x), None) => Some(x),
        (None, other) => other,
    }
}

impl Default for AgentLimits {
    fn default() -> (r: Self)
        ensures
            r == no_limits(),
    {
        AgentLimits { max_steps: None, max_tool_calls: None, max_seconds: None }
    }
}

fn lower(a: Option<u32>, b: Option<u32>) -> (r: Option<u32>)
    ensures
        r == lower_bound(a, b),
{
    match (a, b) {
        (Some(x), Some(y)) => if x <= y {
            Some(x)
        } else {
            Some(y)
        },
        (Some(x), None) => Some(x),
        (None, other) => other,
    }
}

impl AgentLimits {
    pub open spec fn narrowed(self, other: AgentLimits) -> AgentLimits {
        AgentLimits {
            max_steps: lower_bound(self.max_steps, other.max_steps),
            max_tool_calls: lower_bound(self.max_tool_calls, other.max_tool_calls),
            max_seconds: lower_bound(self.max_seconds, other.max_seconds),
        }
    }

    /// No bound of `self` is looser than the same bound of `than`.
    pub open spec fn no_looser(self, than: AgentLimits) -> bool {
        &&& at_most(self.max_steps, than.max_steps)
        &&& at_most(self.max_tool_calls, than.max_tool_calls)
        &&& at_most(self.max_seconds, than.max_seconds)
    }

    /// Whether no bound at all is declared.
    pub fn is_empty(&self) -> (r: bool)
        ensures
            r == (*self == no_limits()),
    {
        self.max_steps.is_none() && self.max_tool_calls.is_none() && self.max_seconds.is_none()
    }

    /// Narrows `self` by `other`, taking the lower of each declared bound: a
    /// node may tighten a ceiling its agent definition set, never raise it.
    pub fn narrowed_by(&self, other: &Self) -> (r: Self)
        ensures
            r == self.narrowed(*other),
    {
        AgentLimits {
            max_steps: lower(self.max_steps, other.max_steps),
            max_tool_calls: lower(self.max_tool_calls, other.max_tool_calls),
            max_seconds: lower(self.max_seconds, other.max_seconds),
        }
    }
}

/// Narrowing never widens: the result is no looser than either side, and every
/// bound it declares was declared by one of them.
pub proof fn narrowing_never_widens(definition: AgentLimits, node: AgentLimits)
    ensures
        definition.narrowed(node).no_looser(definition),
        definition.narrowed(node).no_looser(node),
        definition.narrowed(node).max_steps == definition.max_steps || definition.narrowed(
            node,
        ).max_steps == node.max_steps,
        definition.narrowed(node).max_tool_calls == definition.max_tool_calls
            || definition.narrowed(node).max_tool_calls == node.max_tool_calls,
        definition.narrowed(node).max_seconds == definition.max_seconds || definition.narrowed(
            node,
        ).max_seconds == node.max_seconds,
{
}

/// A tool an agent is permitted to call.
#[derive(Debug, PartialEq, Eq)]
pub struct ToolGrant {
    /// An exact slug (`github.add_labels`), or a namespace pattern with a
    /// trailing `.*` (`github.*`).
    pub slug: String,
    /// Trusted connection reference for calls to this tool.
    pub connection_ref: Option<String>,
}

#[verifier::ext_equal]
pub struct ToolGrantView {
    pub slug: Seq<char>,
    pub connection_ref: Option<Seq<char>>,
}

impl View for ToolGrant {
    type V = ToolGrantView;

    open spec fn view(&self) -> ToolGrantView {
        ToolGrantView { slug: self.slug@, connection_ref: opt_view(self.connection_ref) }
    }
}

impl ToolGrantView {
    /// The grant is a namespace pattern: its slug ends in `.*`.
    pub open spec fn is_pattern(self) -> bool {
        seq!['.', '*'].is_suffix_of(self.slug)
    }

    /// The grant covers `slug`: it is that slug, or it is a pattern and what
    /// stands before the `*` begins `slug`.
    pub open spec fn covers(self, slug: Seq<char>) -> bool {
        if self.is_pattern() {
            self.slug.drop_last().is_prefix_of(slug)
        } else {
            self.slug == slug
        }
    }
}

impl ToolGrant {
    /// A grant for `slug` with no connection override.
    pub fn new(slug: &str) -> (r: Self)
        ensures
            r@ == (ToolGrantView { slug: slug@, connection_ref: None }),
    {
        ToolGrant { slug: slug.to_owned(), connection_ref: None }
    }

    /// Whether this grant is a trailing-`.*` namespace pattern.
    pub fn is_pattern(&self) -> (r: bool)
        ensures
            r == self@.is_pattern(),
    {
        proof {
            reveal_strlit(".*");
            assert(".*"@ =~= seq!['.', '*']);
        }
        ends_in(self.slug.as_str(), ".*")
    }

    /// Whether this grant covers `slug`, by exact match or by namespace.
    pub fn covers(&self, slug: &str) -> (r: bool)
        ensures
            r == self@.covers(slug@),
    {
        if self.is_pattern() {
            let mut prefix = chars_of(self.slug.as_str());
            let n: usize = prefix.len();
            prefix.truncate(n - 1);
            assert(prefix@ =~= self.slug@.drop_last());
            let prefix_text = text_of(&prefix);
            begins_with(slug, prefix_text.as_str())
        } else {
            same(self.slug.as_str(), slug)
        }
    }
}

/// A namespace pattern covers exactly the slugs of its namespace, and any other
/// grant covers itself alone.
pub proof fn pattern_covers_its_namespace_only(grant: ToolGrantView, slug: Seq<char>)
    ensures
        grant.is_pattern() ==> (grant.covers(slug) <==> grant.slug.drop_last().is_prefix_of(slug)),
        grant.is_pattern() ==> grant.slug.drop_last().last() == '.',
        !grant.is_pattern() ==> (grant.covers(slug) <==> grant.slug == slug),
        grant.covers(grant.slug),
{
    if grant.is_pattern() {
        let tail = grant.slug.subrange(grant.slug.len() - 2, grant.slug.len() as int);
        assert(tail[0] == '.' && tail[1] == '*');
        assert(grant.slug.drop_last() =~= grant.slug.subrange(0, grant.slug.len() - 1));
    }
}

/// One declared source of context for an agent turn.
#[derive(Debug, PartialEq, Eq)]
pub struct ContextSource {
    /// Stable label for this block; a positional one is used when absent.
    pub label: Option<String>,
    /// Where the material comes from.
    pub kind: ContextSourceKind,
    /// Whether this block is survivable when it cannot be resolved.
    pub optional: bool,
}

#[verifier::ext_equal]
pub struct ContextSourceView {
    pub label: Option<Seq<char>>,
    pub kind: ContextSourceKindView,
    pub optional: bool,
}

impl View for ContextSource {
    type V = ContextSourceView;

    open spec fn view(&self) -> ContextSourceView {
        ContextSourceView {
            label: opt_view(self.label),
            kind: self.kind@,
            optional: self.optional,
        }
    }
}

impl ContextSourceView {
    /// The label, or `context_<index>` where none was given.
    pub open spec fn label_or_index(self, index: nat) -> Seq<char> {
        match self.label {
            Some(label) => label,
            None => "context_"@ + decimal(index),
        }
    }
}

impl ContextSource {
    /// A required context source of the given kind, with no label.
    pub fn new(kind: ContextSourceKind) -> (r: Self)
        ensures
            r@ == (ContextSourceView { label: None, kind: kind@, optional: false }),
    {
        ContextSource { label: None, kind, optional: false }
    }

    /// This source's label, or the positional fallback `context_<index>`.
    pub fn label_or_index(&self, index: usize) -> (r: String)
        ensures
            r@ == self@.label_or_index(index as nat),
    {
        match &self.label {
            Some(label) => label.clone(),
            None => {
                let mut text = "context_".to_owned();
                text.append(decimal_text(index as u64).as_str());
                text
            },
        }
    }
}

/// Where a [`ContextSource`]'s material comes from.
#[derive(Debug, PartialEq, Eq)]
pub enum ContextSourceKind {
    /// Literal text, or an `=`-expression.
    Text { text: String },
    /// The node's input items, as a JSON array.
    Items,
    /// A recall against the host's memory store.
    Memory { scope: String, query: String, limit: Option<u32> },
    /// A named host profile.
    Flavour { slug: String },
    /// A host-named source that the harness expands.
    Host { source: String, params: Json },
}

#[verifier::ext_equal]
pub enum ContextSourceKindView {
    Text { text: Seq<char> },
    Items,
    Memory { scope: Seq<char>, query: Seq<char>, limit: Option<u32> },
    Flavour { slug: Seq<char> },
    Host { source: Seq<char>, params: JsonView },
}

impl View for ContextSourceKind {
    type V = ContextSourceKindView;

    open spec fn view(&self) -> ContextSourceKindView {
        match *self {
            ContextSourceKind::Text { text } => ContextSourceKindView::Text { text: text@ },
            ContextSourceKind::Items => ContextSourceKindView::Items,
            ContextSourceKind::Memory { scope, query, limit } => ContextSourceKindView::Memory {
                scope: scope@,
                query: query@,
                limit,
            },
            ContextSourceKind::Flavour { slug } => ContextSourceKindView::Flavour { slug: slug@ },
            ContextSourceKind::Host { source, params } => ContextSourceKindView::Host {
                source: source@,
                params: params@,
            },
        }
    }
}

impl ContextSourceKindView {
    /// The wire name of this kind.
    pub open spec fn name(self) -> Seq<char> {
        match self {
            ContextSourceKindView::Text { .. } => "text"@,
            ContextSourceKindView::Items => "items"@,
            ContextSourceKindView::Memory { .. } => "memory"@,
            ContextSourceKindView::Flavour { .. } => "flavour"@,
            ContextSourceKindView::Host { .. } => "host"@,
        }
    }
}

impl ContextSourceKind {
    /// The wire name of this kind.
    pub fn as_str(&self) -> (r: &'static str)
        ensures
            r@ == self@.name(),
    {
        match self {
            ContextSourceKind::Text { .. } => "text",
            ContextSourceKind::Items => "items",
            ContextSourceKind::Memory { .. } => "memory",
            ContextSourceKind::Flavour { .. } => "flavour",
            ContextSourceKind::Host { .. } => "host",
        }
    }
}

} // verus!
