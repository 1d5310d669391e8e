//! What holds of every policy decision on a graph: which graphs fire by
//! themselves, which need approval, and which have anything to do.
use vstd::prelude::*;

use crate::catalog::contracts::{gather_contract, scatter_contract, ContractView};
use crate::catalog::graph_policy::{
    approval_of, fires_unattended, has_actionable, has_side_effect, trigger_kind_named,
    trigger_kind_of, TriggerKind,
};
use crate::json::{lemma_member_reads, JsonView};
use crate::model::graph::{kind_text, GraphView, NodeKind};
use crate::walk::{is_path, joined, reachable};

verus! {

proof fn lemma_kind_names()
    ensures
        "manual"@ != "schedule"@,
        "manual"@ != "webhook"@,
        "manual"@ != "app_event"@,
        "manual"@ != "form"@,
        "manual"@ != "execute_by_workflow"@,
        "manual"@ != "chat_message"@,
        "manual"@ != "evaluation"@,
        "manual"@ != "system"@,
        "schedule"@ != "webhook"@,
        "schedule"@ != "app_event"@,
        "schedule"@ != "form"@,
        "schedule"@ != "execute_by_workflow"@,
        "schedule"@ != "chat_message"@,
        "schedule"@ != "evaluation"@,
        "schedule"@ != "system"@,
        "webhook"@ != "app_event"@,
        "webhook"@ != "form"@,
        "webhook"@ != "execute_by_workflow"@,
        "webhook"@ != "chat_message"@,
        "webhook"@ != "evaluation"@,
        "webhook"@ != "system"@,
        "app_event"@ != "form"@,
        "app_event"@ != "execute_by_workflow"@,
        "app_event"@ != "chat_message"@,
        "app_event"@ != "evaluation"@,
        "app_event"@ != "system"@,
        "form"@ != "execute_by_workflow"@,
        "form"@ != "chat_message"@,
        "form"@ != "evaluation"@,
        "form"@ != "system"@,
        "execute_by_workflow"@ != "chat_message"@,
        "execute_by_workflow"@ != "evaluation"@,
        "execute_by_workflow"@ != "system"@,
        "chat_message"@ != "evaluation"@,
        "chat_message"@ != "system"@,
        "evaluation"@ != "system"@,
{
    reveal_strlit("manual");
    reveal_strlit("schedule");
    reveal_strlit("webhook");
    reveal_strlit("app_event");
    reveal_strlit("form");
    reveal_strlit("execute_by_workflow");
    reveal_strlit("chat_message");
    reveal_strlit("evaluation");
    reveal_strlit("system");
    assert("manual"@.len() == 6 && "schedule"@.len() == 8 && "webhook"@.len() == 7 && "app_event"@.len() == 9 && "form"@.len() == 4 && "execute_by_workflow"@.len() == 19 && "chat_message"@.len() == 12 && "evaluation"@.len() == 10 && "system"@.len() == 6);
    assert("manual"@[0] == 'm');
    assert("system"@[0] == 's');
}

/// Every kind of trigger goes by its own name, and nothing else names one.
pub proof fn trigger_kinds_go_by_their_names(name: Seq<char>)
    ensures
        trigger_kind_named("manual"@) == Some(TriggerKind::Manual),
        trigger_kind_named("schedule"@) == Some(TriggerKind::Schedule),
        trigger_kind_named("webhook"@) == Some(TriggerKind::Webhook),
        trigger_kind_named("app_event"@) == Some(TriggerKind::AppEvent),
        trigger_kind_named("form"@) == Some(TriggerKind::Form),
        trigger_kind_named("execute_by_workflow"@) == Some(TriggerKind::ExecuteByWorkflow),
        trigger_kind_named("chat_message"@) == Some(TriggerKind::ChatMessage),
        trigger_kind_named("evaluation"@) == Some(TriggerKind::Evaluation),
        trigger_kind_named("system"@) == Some(TriggerKind::System),
        name != "manual"@ && name != "schedule"@ && name != "webhook"@ && name != "app_event"@ && name != "form"@ && name != "execute_by_workflow"@ && name != "chat_message"@ && name != "evaluation"@ && name != "system"@ ==> trigger_kind_named(
            name,
        ) is None,
        trigger_kind_of(JsonView::String(name)) == trigger_kind_named(name),
        trigger_kind_of(JsonView::Object(seq![(name, JsonView::Null)])) == trigger_kind_named(name),
        trigger_kind_of(JsonView::Null) is None,
{
    lemma_kind_names();
}

/// A graph fires by itself exactly where its one trigger is a schedule, an event
/// of an app, or a webhook.
pub proof fn graphs_fire_by_their_trigger(g: GraphView, t: int, name: Seq<char>)
    requires
        g.is_only_trigger(t),
        g.nodes[t].config.get("trigger_kind"@) == Some(JsonView::String(name)),
    ensures
        fires_unattended(g) <==> name == "schedule"@ || name == "app_event"@ || name == "webhook"@,
{
    lemma_kind_names();
    if fires_unattended(g) {
        let k = choose|k: int|
            #![trigger g.is_only_trigger(k)]
            g.is_only_trigger(k) && match g.nodes[k].config.get("trigger_kind"@) {
                Some(value) => {
                    ||| trigger_kind_of(value) == Some(TriggerKind::Schedule)
                    ||| trigger_kind_of(value) == Some(TriggerKind::AppEvent)
                    ||| trigger_kind_of(value) == Some(TriggerKind::Webhook)
                },
                None => false,
            };
        assert(k == t);
    }
}

/// A graph whose trigger states no kind never fires by itself, and neither does
/// one without a trigger or with two.
pub proof fn nothing_fires_unasked(g: GraphView, t: int, a: int, b: int)
    ensures
        g.is_only_trigger(t) && g.nodes[t].config.get("trigger_kind"@) is None
            ==> !fires_unattended(g),
        (forall|i: int|
            0 <= i < g.nodes.len() ==> (#[trigger] g.nodes[i]).kind != NodeKind::Trigger)
            ==> !fires_unattended(g),
        0 <= a < b < g.nodes.len() && g.nodes[a].kind == NodeKind::Trigger && g.nodes[b].kind
            == NodeKind::Trigger ==> !fires_unattended(g),
{
    if fires_unattended(g) {
        let k = choose|k: int|
            #![trigger g.is_only_trigger(k)]
            g.is_only_trigger(k) && match g.nodes[k].config.get("trigger_kind"@) {
                Some(value) => {
                    ||| trigger_kind_of(value) == Some(TriggerKind::Schedule)
                    ||| trigger_kind_of(value) == Some(TriggerKind::AppEvent)
                    ||| trigger_kind_of(value) == Some(TriggerKind::Webhook)
                },
                None => false,
            };
        assert(g.nodes[k].kind == NodeKind::Trigger);
    }
}

/// A graph with a tool call, a request, code or a command requires approval,
/// whatever was asked; any other requires it exactly where it was asked for, and
/// nobody is overridden there.
pub proof fn acting_nodes_need_approval(g: GraphView, asked: bool, i: int)
    ensures
        0 <= i < g.nodes.len() && (g.nodes[i].kind == NodeKind::ToolCall || g.nodes[i].kind
            == NodeKind::HttpRequest || g.nodes[i].kind == NodeKind::Code || g.nodes[i].kind
            == NodeKind::Shell) ==> approval_of(g, asked) == (true, !asked) && has_side_effect(g),
        (forall|k: int|
            0 <= k < g.nodes.len() ==> (#[trigger] g.nodes[k]).kind != NodeKind::ToolCall
                && g.nodes[k].kind != NodeKind::HttpRequest && g.nodes[k].kind != NodeKind::Code
                && g.nodes[k].kind != NodeKind::Shell) ==> approval_of(g, asked) == (asked, false)
            && !has_side_effect(g),
{
}

/// A graph whose one trigger leads anywhere but to triggers has something to do,
/// and one whose trigger leads nowhere has not.
pub proof fn graphs_do_what_their_trigger_leads_to(g: GraphView, t: int, e: int, i: int)
    requires
        g.is_only_trigger(t),
    ensures
        0 <= e < g.edges.len() && g.edges[e].from_node == g.nodes[t].id && g.is_first(
            g.edges[e].to_node,
            i,
        ) && g.nodes[i].kind != NodeKind::Trigger ==> has_actionable(g),
        (forall|k: int|
            0 <= k < g.edges.len() ==> (#[trigger] g.edges[k]).from_node != g.nodes[t].id)
            && (forall|k: int|
            0 <= k < g.nodes.len() && k != t ==> (#[trigger] g.nodes[k]).id != g.nodes[t].id)
            ==> !has_actionable(g),
{
    let c = choose|c: int| g.is_only_trigger(c);
    assert(g.is_only_trigger(c) && c == t);
    let from = g.nodes[t].id;
    if 0 <= e < g.edges.len() && g.edges[e].from_node == from && g.is_first(g.edges[e].to_node, i)
        && g.nodes[i].kind != NodeKind::Trigger {
        let path = seq![from, g.edges[e].to_node];
        assert(joined(g, path[0], path[1]));
        assert(is_path(g, None, path));
        assert(path[0] == from && path.last() == g.edges[e].to_node);
        assert(reachable(g, None, from, g.nodes[i].id));
        assert(g.is_first(g.nodes[i].id, i));
    }
    if (forall|k: int| 0 <= k < g.edges.len() ==> (#[trigger] g.edges[k]).from_node != from)
        && (forall|k: int| 0 <= k < g.nodes.len() && k != t ==> (#[trigger] g.nodes[k]).id != from)
        && has_actionable(g) {
        let i = choose|i: int|
            0 <= i < g.nodes.len() && #[trigger] g.is_first(g.nodes[i].id, i) && g.nodes[i].kind
                != NodeKind::Trigger && reachable(g, None, from, g.nodes[i].id);
        let path = choose|path: Seq<Seq<char>>| #[trigger]
            is_path(g, None, path) && path[0] == from && path.last() == g.nodes[i].id;
        if path.len() > 1 {
            assert(joined(g, path[0], path[1]));
        } else {
            assert(path.last() == path[0]);
            assert(i == t);
        }
        assert(false);
    }
}

/// Without exactly one trigger, a graph has something to do where it has an edge
/// and a node that is no trigger, and nothing else counts.
pub proof fn loose_graphs_do_something_where_they_are_joined(g: GraphView, i: int)
    requires
        forall|t: int| !g.is_only_trigger(t),
    ensures
        0 <= i < g.nodes.len() && g.nodes[i].kind != NodeKind::Trigger ==> (has_actionable(g)
            <==> g.edges.len() > 0),
        (forall|k: int|
            0 <= k < g.nodes.len() ==> (#[trigger] g.nodes[k]).kind == NodeKind::Trigger)
            ==> !has_actionable(g),
{
}

/// A contract documents a field of the configuration.
pub open spec fn documents(contract: ContractView, name: Seq<char>) -> bool {
    exists|i: int|
        0 <= i < contract.config_fields.len() && (#[trigger] contract.config_fields[i]).name == name
}

/// A contract shows an example of its own kind: one that sets nothing that is not
/// documented, and everything that has to be there.
pub open spec fn shows_its_kind(
    contract: ContractView,
    kind: NodeKind,
) -> bool {
    &&& contract.kind == kind_text(kind)
    &&& contract.example.text_at("kind"@) == Some(kind_text(kind))
    &&& contract.example.text_at("id"@) is Some
    &&& contract.example.text_at("name"@) is Some
    &&& contract.example.at("config"@) matches JsonView::Object(set) && {
        &&& forall|k: int| 0 <= k < set.len() ==> documents(contract, (#[trigger] set[k]).0)
        &&& forall|i: int|
            0 <= i < contract.config_fields.len() && (
            #[trigger] contract.config_fields[i]).required ==> exists|k: int|
                0 <= k < set.len() && (#[trigger] set[k]).0 == contract.config_fields[i].name
    }
}

proof fn lemma_example_keys()
    ensures
        "id"@ != "kind"@,
        "id"@ != "name"@,
        "id"@ != "config"@,
        "kind"@ != "name"@,
        "kind"@ != "config"@,
        "name"@ != "config"@,
{
    reveal_strlit("id");
    reveal_strlit("kind");
    reveal_strlit("name");
    reveal_strlit("config");
    assert("id"@.len() == 2 && "kind"@.len() == 4 && "name"@.len() == 4 && "config"@.len() == 6);
    assert("kind"@[0] == 'k');
    assert("name"@[0] == 'n');
}

proof fn lemma_example(example: Seq<(Seq<char>, JsonView)>)
    requires
        example.len() == 4,
        example[0].0 == "id"@,
        example[1].0 == "kind"@,
        example[2].0 == "name"@,
        example[3].0 == "config"@,
    ensures
        JsonView::Object(example).get("id"@) == Some(example[0].1),
        JsonView::Object(example).get("kind"@) == Some(example[1].1),
        JsonView::Object(example).get("name"@) == Some(example[2].1),
        JsonView::Object(example).get("config"@) == Some(example[3].1),
{
    lemma_example_keys();
    lemma_member_reads(example, 0);
    lemma_member_reads(example, 1);
    lemma_member_reads(example, 2);
    lemma_member_reads(example, 3);
}

/// The node kind that opens lanes documents what its lanes are made of, and how
/// many there are, and asks for neither.
pub proof fn scatters_are_documented()
    ensures
        shows_its_kind(scatter_contract(), NodeKind::Scatter),
        documents(scatter_contract(), "path"@),
        documents(scatter_contract(), "lanes"@),
        scatter_contract().ports.inputs == seq!["main"@],
        scatter_contract().ports.outputs == seq!["main"@],
{
    let contract = scatter_contract();
    lemma_example(contract.example->Object_0);
    let set = contract.example.at("config"@)->Object_0;
    assert(contract.config_fields[0].name == "path"@ && contract.config_fields[1].name == "lanes"@);
    assert forall|k: int| 0 <= k < set.len() implies documents(contract, (#[trigger] set[k]).0) by {
        assert(contract.config_fields[k].name == set[k].0);
    }
}

/// The node kind that collects lanes documents which nodes it collects, which it
/// has to be told, and when it goes on without all of them; and it has a port for
/// what failed.
pub proof fn gathers_are_documented()
    ensures
        shows_its_kind(gather_contract(), NodeKind::Gather),
        documents(gather_contract(), "from"@),
        documents(gather_contract(), "release"@),
        documents(gather_contract(), "n"@),
        documents(gather_contract(), "on_lane_error"@),
        documents(gather_contract(), "poll_interval_ms"@),
        documents(gather_contract(), "max_polls"@),
        gather_contract().config_fields[0].name == "from"@,
        gather_contract().config_fields[0].required,
        gather_contract().ports.inputs == seq!["main"@],
        gather_contract().ports.outputs == seq!["main"@, "error"@],
{
    let contract = gather_contract();
    lemma_example(contract.example->Object_0);
    let set = contract.example.at("config"@)->Object_0;
    let fields = contract.config_fields;
    assert(fields[0].name == "from"@ && fields[1].name == "release"@ && fields[2].name == "n"@);
    assert(fields[3].name == "on_lane_error"@ && fields[4].name == "poll_interval_ms"@);
    assert(fields[5].name == "max_polls"@);
    assert(set[0].0 == fields[0].name && set[1].0 == fields[1].name && set[2].0 == fields[3].name);
}

} // verus!
