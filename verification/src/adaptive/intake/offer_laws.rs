//! What holds of everything that is offered, and of the shape a graph is told
//! apart by.
use vstd::prelude::*;

use crate::adaptive::intake::catalogue::{
    candidates_of, champions_on_offer_are_offered, collapsed, on_offer,
    the_best_candidate_is_offered, SummaryView,
};
use crate::adaptive::intake::select::CandidateView;
use crate::adaptive::intake::shape::{edge_json, input_json, node_json, position_json, shape_of};
use crate::adaptive::ledger::Score;
use crate::adaptive::promotion::{is_champion, proven, score_below};
use crate::json::{lemma_member_reads, lemma_no_member, JsonView, NumberView};
use crate::model::graph::{
    input_type_text, kind_text, EdgeView, GraphView, NodeView, WorkflowInputView,
};

verus! {

proof fn lemma_candidates_front(
    listed: Seq<SummaryView>,
    scores: Seq<Score>,
    more: SummaryView,
    score: Score,
    tried: Seq<Seq<char>>,
    n: nat,
)
    requires
        n <= listed.len(),
        scores.len() == listed.len(),
    ensures
        candidates_of(listed.push(more), scores.push(score), tried, n) == candidates_of(
            listed,
            scores,
            tried,
            n,
        ),
    decreases n,
{
    if n > 0 {
        lemma_candidates_front(listed, scores, more, score, tried, (n - 1) as nat);
        assert(listed.push(more)[n - 1] == listed[n - 1]);
        assert(scores.push(score)[n - 1] == scores[n - 1]);
    }
}

/// A workflow is a candidate exactly where it is turned on, is no draft, and was
/// not selected before in this episode; it comes behind those listed before it,
/// as it is listed and with its own score.
pub proof fn workflows_are_candidates_where_they_may_be(
    listed: Seq<SummaryView>,
    scores: Seq<Score>,
    more: SummaryView,
    score: Score,
    tried: Seq<Seq<char>>,
)
    requires
        scores.len() == listed.len(),
    ensures
        ({
            let before = candidates_of(listed, scores, tried, listed.len());
            let after = candidates_of(
                listed.push(more),
                scores.push(score),
                tried,
                listed.len() + 1,
            );
            let open = more.enabled && !more.draft && !tried.contains("selected:"@ + more.id);
            &&& !open ==> after == before
            &&& open ==> after == before.push(
                CandidateView {
                    id: more.id,
                    name: more.name,
                    description: more.description,
                    node_count: more.node_count,
                    applied: score.applied,
                    helped: score.helped,
                },
            )
            &&& candidates_of(listed, scores, tried, 0).len() == 0
        }),
{
    lemma_candidates_front(listed, scores, more, score, tried, listed.len());
    assert(listed.push(more)[listed.len() as int] == more);
    assert(scores.push(score)[listed.len() as int] == score);
}

proof fn lemma_node_keys()
    ensures
        "id"@ != "kind"@,
        "id"@ != "type_version"@,
        "id"@ != "name"@,
        "id"@ != "config"@,
        "id"@ != "position"@,
        "kind"@ != "type_version"@,
        "kind"@ != "name"@,
        "kind"@ != "config"@,
        "kind"@ != "position"@,
        "type_version"@ != "name"@,
        "type_version"@ != "config"@,
        "type_version"@ != "position"@,
        "name"@ != "config"@,
        "name"@ != "position"@,
        "config"@ != "position"@,
{
    reveal_strlit("id");
    reveal_strlit("kind");
    reveal_strlit("type_version");
    reveal_strlit("name");
    reveal_strlit("config");
    reveal_strlit("position");
    assert("id"@.len() == 2 && "kind"@.len() == 4 && "type_version"@.len() == 12 && "name"@.len() == 4 && "config"@.len() == 6 && "position"@.len() == 8);
    assert("kind"@[0] == 'k');
    assert("name"@[0] == 'n');
}

proof fn lemma_edge_keys()
    ensures
        "from_node"@ != "from_port"@,
        "from_node"@ != "to_node"@,
        "from_node"@ != "to_port"@,
        "from_port"@ != "to_node"@,
        "from_port"@ != "to_port"@,
        "to_node"@ != "to_port"@,
{
    reveal_strlit("from_node");
    reveal_strlit("from_port");
    reveal_strlit("to_node");
    reveal_strlit("to_port");
    assert("from_node"@.len() == 9 && "from_port"@.len() == 9 && "to_node"@.len() == 7 && "to_port"@.len() == 7);
    assert("from_node"@[5] == 'n');
    assert("from_port"@[5] == 'p');
    assert("to_node"@[3] == 'n');
    assert("to_port"@[3] == 'p');
}

proof fn lemma_input_keys()
    ensures
        "name"@ != "type"@,
        "name"@ != "required"@,
        "name"@ != "default"@,
        "name"@ != "description"@,
        "type"@ != "required"@,
        "type"@ != "default"@,
        "type"@ != "description"@,
        "required"@ != "default"@,
        "required"@ != "description"@,
        "default"@ != "description"@,
{
    reveal_strlit("name");
    reveal_strlit("type");
    reveal_strlit("required");
    reveal_strlit("default");
    reveal_strlit("description");
    assert("name"@.len() == 4 && "type"@.len() == 4 && "required"@.len() == 8 && "default"@.len() == 7 && "description"@.len() == 11);
    assert("name"@[0] == 'n');
    assert("type"@[0] == 't');
}

proof fn lemma_shape_keys()
    ensures
        "nodes"@ != "edges"@,
        "nodes"@ != "inputs"@,
        "nodes"@ != "x"@,
        "nodes"@ != "y"@,
        "edges"@ != "inputs"@,
        "edges"@ != "x"@,
        "edges"@ != "y"@,
        "inputs"@ != "x"@,
        "inputs"@ != "y"@,
        "x"@ != "y"@,
{
    reveal_strlit("nodes");
    reveal_strlit("edges");
    reveal_strlit("inputs");
    reveal_strlit("x");
    reveal_strlit("y");
    assert("nodes"@.len() == 5 && "edges"@.len() == 5 && "inputs"@.len() == 6 && "x"@.len() == 1 && "y"@.len() == 1);
    assert("nodes"@[0] == 'n');
    assert("edges"@[0] == 'e');
    assert("x"@[0] == 'x');
    assert("y"@[0] == 'y');
}

/// A node's shape holds all of it.
pub proof fn node_shapes_read_back(node: NodeView)
    ensures
        ({
            let shape = node_json(node);
            &&& shape.get("id"@) == Some(JsonView::String(node.id))
            &&& shape.get("kind"@) == Some(JsonView::String(kind_text(node.kind)))
            &&& shape.get("type_version"@) == Some(
                JsonView::Number(NumberView::PosInt(node.type_version as u64)),
            )
            &&& shape.get("name"@) == Some(JsonView::String(node.name))
            &&& shape.get("config"@) == Some(node.config)
            &&& node.position is None ==> shape.get("position"@) is None
            &&& node.position matches Some(position) ==> {
                &&& shape.at("position"@).get("x"@) == Some(JsonView::Number(position.x))
                &&& shape.at("position"@).get("y"@) == Some(JsonView::Number(position.y))
            }
        }),
{
    lemma_node_keys();
    lemma_shape_keys();
    let entries = node_json(node)->Object_0;
    assert(entries[0].0 == "id"@ && entries[1].0 == "kind"@ && entries[2].0 == "type_version"@
        && entries[3].0 == "name"@ && entries[4].0 == "config"@);
    lemma_member_reads(entries, 0);
    lemma_member_reads(entries, 1);
    lemma_member_reads(entries, 2);
    lemma_member_reads(entries, 3);
    lemma_member_reads(entries, 4);
    if node.position is Some {
        assert(entries[5].0 == "position"@);
        lemma_member_reads(entries, 5);
        let place = position_json(node.position->0)->Object_0;
        lemma_member_reads(place, 0);
        lemma_member_reads(place, 1);
    } else {
        lemma_no_member(entries, "position"@);
    }
}

/// An edge's shape holds both ends and both ports.
pub proof fn edge_shapes_read_back(edge: EdgeView)
    ensures
        edge_json(edge).get("from_node"@) == Some(JsonView::String(edge.from_node)),
        edge_json(edge).get("from_port"@) == Some(JsonView::String(edge.from_port)),
        edge_json(edge).get("to_node"@) == Some(JsonView::String(edge.to_node)),
        edge_json(edge).get("to_port"@) == Some(JsonView::String(edge.to_port)),
{
    lemma_edge_keys();
    let entries = edge_json(edge)->Object_0;
    lemma_member_reads(entries, 0);
    lemma_member_reads(entries, 1);
    lemma_member_reads(entries, 2);
    lemma_member_reads(entries, 3);
}

/// A declared input's shape holds its name, its type, whether it is required, and
/// its default and description where it has them.
pub proof fn input_shapes_read_back(input: WorkflowInputView)
    ensures
        ({
            let shape = input_json(input);
            &&& shape.get("name"@) == Some(JsonView::String(input.name))
            &&& shape.get("type"@) == Some(JsonView::String(input_type_text(input.ty)))
            &&& shape.get("required"@) == Some(JsonView::Bool(input.required))
            &&& shape.get("default"@) == input.default
            &&& input.description is None ==> shape.get("description"@) is None
            &&& input.description matches Some(text) ==> shape.get("description"@) == Some(
                JsonView::String(text),
            )
        }),
{
    lemma_input_keys();
    let entries = input_json(input)->Object_0;
    assert(entries[0].0 == "name"@ && entries[1].0 == "type"@ && entries[2].0 == "required"@);
    lemma_member_reads(entries, 0);
    lemma_member_reads(entries, 1);
    lemma_member_reads(entries, 2);
    if input.default is Some {
        assert(entries[3] == ("default"@, input.default->0));
        lemma_member_reads(entries, 3);
        if input.description is Some {
            assert(entries[4] == ("description"@, JsonView::String(input.description->0)));
            lemma_member_reads(entries, 4);
        } else {
            lemma_no_member(entries, "description"@);
        }
    } else {
        lemma_no_member(entries, "default"@);
        if input.description is Some {
            assert(entries[3] == ("description"@, JsonView::String(input.description->0)));
            lemma_member_reads(entries, 3);
        } else {
            lemma_no_member(entries, "description"@);
        }
    }
}

/// A graph's shape holds its nodes, its edges and its inputs, each in order.
pub proof fn shapes_hold_the_graph(g: GraphView, i: int)
    ensures
        ({
            let shape = shape_of(g);
            let nodes = shape.at("nodes"@)->Array_0;
            let edges = shape.at("edges"@)->Array_0;
            let inputs = shape.at("inputs"@)->Array_0;
            &&& shape.at("nodes"@) is Array && shape.at("edges"@) is Array && shape.at(
                "inputs"@,
            ) is Array
            &&& nodes.len() == g.nodes.len()
            &&& edges.len() == g.edges.len()
            &&& inputs.len() == g.inputs.len()
            &&& 0 <= i < g.nodes.len() ==> nodes[i].get("id"@) == Some(
                JsonView::String(g.nodes[i].id),
            )
            &&& 0 <= i < g.edges.len() ==> edges[i].get("from_node"@) == Some(
                JsonView::String(g.edges[i].from_node),
            )
            &&& 0 <= i < g.inputs.len() ==> inputs[i].get("name"@) == Some(
                JsonView::String(g.inputs[i].name),
            )
        }),
{
    lemma_shape_keys();
    let entries = shape_of(g)->Object_0;
    lemma_member_reads(entries, 0);
    lemma_member_reads(entries, 1);
    lemma_member_reads(entries, 2);
    if 0 <= i < g.nodes.len() {
        node_shapes_read_back(g.nodes[i]);
    }
    if 0 <= i < g.edges.len() {
        edge_shapes_read_back(g.edges[i]);
    }
    if 0 <= i < g.inputs.len() {
        input_shapes_read_back(g.inputs[i]);
    }
}

/// What is kept stands for the lineage of a candidate: a lineage of one is kept as
/// it is; of a longer one, its champion is kept where the champion is a candidate,
/// and no proven candidate of the lineage has the better score.
pub open spec fn stands_for(
    candidates: Seq<CandidateView>,
    family: Seq<(Seq<char>, Score)>,
    own: CandidateView,
    kept: CandidateView,
) -> bool {
    &&& family.len() <= 1 ==> kept == own
    &&& family.len() > 1 ==> {
        &&& forall|c: int| #[trigger]
            is_champion(family, c)
                && on_offer(candidates, family[c]) ==> kept.id
                == family[c].0
        &&& forall|i: int|
            0 <= i < family.len() && proven(#[trigger] family[i])
                && on_offer(candidates, family[i]) ==> exists|
                c: int,
            |
                0 <= c < family.len() && (#[trigger] family[c]).0 == kept.id
                    && proven(family[c])
                    && !score_below(family[c].1, family[i].1)
    }
}

/// Whatever is kept once families are collapsed is the best of some candidate's
/// lineage, and not merely a member of it.
pub proof fn the_best_of_each_family_is_kept(
    candidates: Seq<CandidateView>,
    families: Seq<Seq<(Seq<char>, Score)>>,
    n: nat,
    k: int,
)
    requires
        n <= candidates.len(),
        0 <= k < collapsed(candidates, families, n).kept.len(),
    ensures
        exists|j: int|
            0 <= j < n && stands_for(
                candidates,
                families[j],
                #[trigger] candidates[j],
                collapsed(candidates, families, n).kept[k],
            ),
    decreases n,
{
    let before = collapsed(
        candidates,
        families,
        (n - 1) as nat,
    );
    let after = collapsed(candidates, families, n);
    if k < before.kept.len() {
        the_best_of_each_family_is_kept(candidates, families, (n - 1) as nat, k);
        assert(after.kept[k] == before.kept[k]);
    } else {
        let family = families[n - 1];
        let own = candidates[n - 1];
        if family.len() > 1 {
            assert forall|c: int| #[trigger]
                is_champion(family, c)
                    && on_offer(
                    candidates,
                    family[c],
                ) implies after.kept[k].id == family[c].0 by {
                champions_on_offer_are_offered(
                    candidates,
                    family,
                    own,
                    c,
                );
            }
            assert forall|i: int|
                0 <= i < family.len() && proven(#[trigger] family[i])
                    && on_offer(
                    candidates,
                    family[i],
                ) implies exists|c: int|
                0 <= c < family.len() && (#[trigger] family[c]).0 == after.kept[k].id
                    && proven(family[c])
                    && !score_below(family[c].1, family[i].1) by {
                the_best_candidate_is_offered(
                    candidates,
                    family,
                    own,
                    i,
                );
            }
        }
        assert(stands_for(candidates, families[n - 1], candidates[n - 1], after.kept[k]));
    }
}

} // verus!
