//! Policy predicates over a workflow graph: the questions a host has to answer
//! before it saves or runs one.
//!
//! A graph that fires unattended must not save itself armed, and a graph that
//! can act on the world must require approval.
use vstd::prelude::*;

use crate::json::{Json, JsonView};
use crate::model::graph::{GraphView, NodeKind, WorkflowGraph};
use crate::text::same;
use crate::walk::{is_reached, live_edges, reachable, reached};

verus! {

/// The trigger discriminator in a `trigger` node's `config.trigger_kind`.
#[derive(Debug, Clone, Copy, PartialEq, Eq, Structural)]
pub enum TriggerKind {
    Manual,
    Schedule,
    Webhook,
    AppEvent,
    Form,
    ExecuteByWorkflow,
    ChatMessage,
    Evaluation,
    System,
}

/// The kind of a given name.
pub open spec fn trigger_kind_named(name: Seq<char>) -> Option<TriggerKind> {
    if name == "manual"@ {
        Some(TriggerKind::Manual)
    } else if name == "schedule"@ {
        Some(TriggerKind::Schedule)
    } else if name == "webhook"@ {
        Some(TriggerKind::Webhook)
    } else if name == "app_event"@ {
        Some(TriggerKind::AppEvent)
    } else if name == "form"@ {
        Some(TriggerKind::Form)
    } else if name == "execute_by_workflow"@ {
        Some(TriggerKind::ExecuteByWorkflow)
    } else if name == "chat_message"@ {
        Some(TriggerKind::ChatMessage)
    } else if name == "evaluation"@ {
        Some(TriggerKind::Evaluation)
    } else if name == "system"@ {
        Some(TriggerKind::System)
    } else {
        None
    }
}

/// The kind a JSON value spells: its name, or an object holding `null` under
/// its name alone.
pub open spec fn trigger_kind_of(value: JsonView) -> Option<TriggerKind> {
    match value {
        JsonView::String(name) => trigger_kind_named(name),
        JsonView::Object(entries) => if entries.len() == 1 && entries[0].1 == JsonView::Null {
            trigger_kind_named(entries[0].0)
        } else {
            None
        },
        _ => None,
    }
}

impl TriggerKind {
    /// The kind of a given name.
    pub fn named(name: &str) -> (r: Option<TriggerKind>)
        ensures
            r == trigger_kind_named(name@),
    {
        if same(name, "manual") {
            Some(TriggerKind::Manual)
        } else if same(name, "schedule") {
            Some(TriggerKind::Schedule)
        } else if same(name, "webhook") {
            Some(TriggerKind::Webhook)
        } else if same(name, "app_event") {
            Some(TriggerKind::AppEvent)
        } else if same(name, "form") {
            Some(TriggerKind::Form)
        } else if same(name, "execute_by_workflow") {
            Some(TriggerKind::ExecuteByWorkflow)
        } else if same(name, "chat_message") {
            Some(TriggerKind::ChatMessage)
        } else if same(name, "evaluation") {
            Some(TriggerKind::Evaluation)
        } else if same(name, "system") {
            Some(TriggerKind::System)
        } else {
            None
        }
    }

    /// The kind a JSON value spells.
    pub fn from_json(value: &Json) -> (r: Option<TriggerKind>)
        ensures
            r == trigger_kind_of(value@),
    {
        match value {
            Json::String(name) => TriggerKind::named(name.as_str()),
            Json::Object(entries) => {
                if entries.len() != 1 {
                    return None;
                }
                assert(value@->Object_0[0] == (entries@[0].0@, entries@[0].1@));
                match &entries[0].1 {
                    Json::Null => TriggerKind::named(entries[0].0.as_str()),
                    _ => None,
                }
            },
            _ => None,
        }
    }
}

/// The graph's one trigger fires without a human in the loop.
pub open spec fn fires_unattended(g: GraphView) -> bool {
    exists|i: int|
        #![trigger g.is_only_trigger(i)]
        g.is_only_trigger(i) && match g.nodes[i].config.get("trigger_kind"@) {
            Some(value) => {
                ||| trigger_kind_of(value) == Some(TriggerKind::Schedule)
                ||| trigger_kind_of(value) == Some(TriggerKind::AppEvent)
                ||| trigger_kind_of(value) == Some(TriggerKind::Webhook)
            },
            None => false,
        }
}

/// Whether the graph's trigger fires on a timer, an inbound webhook or a
/// connected-app event, with nobody asking it to. A graph without a single
/// trigger, or whose trigger has no known kind, never fires by itself.
pub fn trigger_is_automatic(graph: &WorkflowGraph) -> (r: bool)
    ensures
        r == fires_unattended(graph@),
{
    match graph.trigger_index() {
        None => false,
        Some(i) => {
            assert(graph@.nodes[i as int] == graph.nodes@[i as int]@);
            let r = match graph.nodes[i].config.get("trigger_kind") {
                None => false,
                Some(value) => match TriggerKind::from_json(value) {
                    Some(TriggerKind::Schedule) => true,
                    Some(TriggerKind::AppEvent) => true,
                    Some(TriggerKind::Webhook) => true,
                    _ => false,
                },
            };
            proof {
                assert(graph@.is_only_trigger(i as int));
                if fires_unattended(graph@) {
                    let k = choose|k: int|
                        #![trigger graph@.is_only_trigger(k)]
                        graph@.is_only_trigger(k) && match graph@.nodes[k].config.get(
                            "trigger_kind"@,
                        ) {
                            Some(value) => {
                                ||| trigger_kind_of(value) == Some(TriggerKind::Schedule)
                                ||| trigger_kind_of(value) == Some(TriggerKind::AppEvent)
                                ||| trigger_kind_of(value) == Some(TriggerKind::Webhook)
                            },
                            None => false,
                        };
                    assert(k == i);
                }
            }
            r
        },
    }
}

/// The kinds of node that act on the world.
pub open spec fn acts(kind: NodeKind) -> bool {
    ||| kind == NodeKind::ToolCall
    ||| kind == NodeKind::HttpRequest
    ||| kind == NodeKind::Code
    ||| kind == NodeKind::Shell
}

/// Some node acts on the world.
pub open spec fn has_side_effect(g: GraphView) -> bool {
    exists|i: int| 0 <= i < g.nodes.len() && acts((#[trigger] g.nodes[i]).kind)
}

/// Whether the graph holds a node that can act on the world: a tool call, an
/// HTTP request, code, or a shell command.
pub fn graph_has_outbound_side_effect(graph: &WorkflowGraph) -> (r: bool)
    ensures
        r == has_side_effect(graph@),
{
    let mut i: usize = 0;
    while i < graph.nodes.len()
        invariant
            i <= graph.nodes@.len(),
            forall|k: int| 0 <= k < i ==> !acts((#[trigger] graph@.nodes[k]).kind),
        decreases graph.nodes@.len() - i,
    {
        assert(graph@.nodes[i as int] == graph.nodes@[i as int]@);
        match graph.nodes[i].kind {
            NodeKind::ToolCall | NodeKind::HttpRequest | NodeKind::Code | NodeKind::Shell => {
                return true;
            },
            _ => {},
        }
        i = i + 1;
    }
    false
}

/// Whether approval is required, and whether that overrides a caller who asked
/// for none.
pub open spec fn approval_of(g: GraphView, asked: bool) -> (bool, bool) {
    (asked || has_side_effect(g), has_side_effect(g) && !asked)
}

/// Requires approval of a graph that can act on the world, whatever the caller
/// asked for. Returns whether approval is required, and whether that overrode
/// the caller.
pub fn enforce_side_effect_approval(graph: &WorkflowGraph, caller_require_approval: bool) -> (r: (
    bool,
    bool,
))
    ensures
        r == approval_of(graph@, caller_require_approval),
{
    let acting = graph_has_outbound_side_effect(graph);
    (caller_require_approval || acting, acting && !caller_require_approval)
}

/// The graph has something to do: a node that is no trigger and that can be
/// reached from the trigger. Where there is not exactly one trigger, any edge
/// and any such node will do.
pub open spec fn has_actionable(g: GraphView) -> bool {
    if exists|t: int| g.is_only_trigger(t) {
        let t = choose|t: int| g.is_only_trigger(t);
        exists|i: int|
            0 <= i < g.nodes.len() && #[trigger] g.is_first(g.nodes[i].id, i) && g.nodes[i].kind
                != NodeKind::Trigger && reachable(g, None, g.nodes[t].id, g.nodes[i].id)
    } else {
        g.edges.len() > 0 && exists|i: int|
            0 <= i < g.nodes.len() && (#[trigger] g.nodes[i]).kind != NodeKind::Trigger
    }
}

/// Whether the graph has anything to do: a node other than a trigger that the
/// trigger leads to.
pub fn graph_has_actionable_nodes(graph: &WorkflowGraph) -> (r: bool)
    ensures
        r == has_actionable(graph@),
{
    match graph.trigger_index() {
        None => {
            if graph.edges.len() == 0 {
                return false;
            }
            let mut i: usize = 0;
            while i < graph.nodes.len()
                invariant
                    i <= graph.nodes@.len(),
                    forall|t: int| !graph@.is_only_trigger(t),
                    graph@.edges.len() > 0,
                    forall|k: int|
                        0 <= k < i ==> (#[trigger] graph@.nodes[k]).kind == NodeKind::Trigger,
                decreases graph.nodes@.len() - i,
            {
                assert(graph@.nodes[i as int] == graph.nodes@[i as int]@);
                if graph.nodes[i].kind != NodeKind::Trigger {
                    return true;
                }
                i = i + 1;
            }
            false
        },
        Some(t) => {
            let from = graph.nodes[t].id.as_str();
            let live = live_edges(graph, None, from);
            assert(graph@.is_only_trigger(t as int));
            let ghost chosen = choose|t: int| graph@.is_only_trigger(t);
            assert(graph@.is_only_trigger(chosen));
            assert(chosen == t);
            assert(graph@.nodes[t as int] == graph.nodes@[t as int]@);
            let mut i: usize = 0;
            while i < graph.nodes.len()
                invariant
                    i <= graph.nodes@.len(),
                    t < graph.nodes@.len(),
                    from@ == graph@.nodes[t as int].id,
                    live@.len() == graph.edges@.len(),
                    forall|id: Seq<char>| #[trigger]
                        reached(graph@, live@, from@, id) <==> reachable(
                            graph@,
                            None,
                            from@,
                            id,
                        ),
                    graph@.is_only_trigger(t as int),
                    t == (choose|t: int| graph@.is_only_trigger(t)),
                    forall|k: int|
                        0 <= k < i && #[trigger] graph@.is_first(graph@.nodes[k].id, k)
                            && graph@.nodes[k].kind != NodeKind::Trigger ==> !reachable(
                            graph@,
                            None,
                            from@,
                            graph@.nodes[k].id,
                        ),
                decreases graph.nodes@.len() - i,
            {
                assert(graph@.nodes[i as int] == graph.nodes@[i as int]@);
                let id = graph.nodes[i].id.as_str();
                if graph.nodes[i].kind != NodeKind::Trigger && is_reached(graph, &live, from, id) {
                    match graph.node_index(id) {
                        Some(first) => {
                            if first == i {
                                assert(graph@.is_first(graph@.nodes[i as int].id, i as int));
                                return true;
                            }
                        },
                        None => {
                            assert(graph@.has_node(id@));
                        },
                    }
                }
                i = i + 1;
            }
            false
        },
    }
}

/// A graph that can act on the world requires approval, whatever the caller
/// asked for; a caller is overridden only where it asked for less; and no edit
/// that keeps a graph's acting nodes can lift the requirement.
pub proof fn side_effects_require_approval(g: GraphView, edited: GraphView, asked: bool)
    requires
        forall|i: int|
            0 <= i < g.nodes.len() && acts((#[trigger] g.nodes[i]).kind) ==> edited.nodes.contains(
                g.nodes[i],
            ),
    ensures
        has_side_effect(g) ==> approval_of(g, asked).0,
        approval_of(g, asked).1 ==> approval_of(g, asked).0 && !asked,
        has_side_effect(g) ==> approval_of(edited, asked).0,
{
    if has_side_effect(g) {
        let i = choose|i: int| 0 <= i < g.nodes.len() && acts((#[trigger] g.nodes[i]).kind);
        let k = choose|k: int| 0 <= k < edited.nodes.len() && edited.nodes[k] == g.nodes[i];
        assert(acts(edited.nodes[k].kind));
    }
}

} // verus!
