//! What holds of every node: what its expressions see, how its configuration is
//! read, and how a fan-out deals its items.
use vstd::prelude::*;

use crate::data::{first_json, payloads, ItemView};
use crate::json::{
    entry, lemma_member_reads, lemma_no_member, lemma_set_member_keeps_others,
    lemma_set_member_reads_back, JsonView, NumberView,
};
use crate::nodes::{
    concurrency_of, main_output, mode_of, nodes_scope_of, on_item_error_of, scope_of, slot_scope,
    slots_scope, Concurrency, ContextView, ExecutionMode, OnItemError,
};
use crate::nodes::scatter::{
    flattened, lanes_asked, lanes_of, pieces, scatter_result, scattered_items, segments, share,
    splitting_keeps_order, walk,
};
use crate::text::{lemma_cut_joined, lemma_cut_some};

verus! {

proof fn lemma_scope_keys()
    ensures
        "item"@ != "items"@,
        "item"@ != "run"@,
        "item"@ != "nodes"@,
        "item"@ != "inputs"@,
        "item"@ != "iteration"@,
        "items"@ != "run"@,
        "items"@ != "nodes"@,
        "items"@ != "inputs"@,
        "items"@ != "iteration"@,
        "run"@ != "nodes"@,
        "run"@ != "inputs"@,
        "run"@ != "iteration"@,
        "nodes"@ != "inputs"@,
        "nodes"@ != "iteration"@,
        "inputs"@ != "iteration"@,
{
    reveal_strlit("item");
    reveal_strlit("items");
    reveal_strlit("run");
    reveal_strlit("nodes");
    reveal_strlit("inputs");
    reveal_strlit("iteration");
    assert("item"@.len() == 4 && "items"@.len() == 5 && "run"@.len() == 3 && "nodes"@.len() == 5 && "inputs"@.len() == 6 && "iteration"@.len() == 9);
    assert("items"@[0] == 'i');
    assert("nodes"@[0] == 'n');
}

/// An expression sees the current item, all items, the run, the completed nodes,
/// and the inputs of the run.
pub proof fn expressions_see_their_scope(
    item: JsonView,
    items: Seq<JsonView>,
    run: JsonView,
    nodes: JsonView,
)
    ensures
        ({
            let scope = scope_of(item, items, run, nodes);
            &&& scope.get("item"@) == Some(item)
            &&& scope.get("items"@) == Some(JsonView::Array(items))
            &&& scope.get("run"@) == Some(run)
            &&& scope.get("nodes"@) == Some(nodes)
            &&& run.get("inputs"@) is Some ==> scope.get("inputs"@) == run.get("inputs"@)
            &&& run.get("inputs"@) is None ==> scope.get("inputs"@) == Some(JsonView::Null)
        }),
{
    lemma_scope_keys();
    let entries = scope_of(item, items, run, nodes)->Object_0;
    lemma_member_reads(entries, 0);
    lemma_member_reads(entries, 1);
    lemma_member_reads(entries, 2);
    lemma_member_reads(entries, 3);
    lemma_member_reads(entries, 4);
}

/// A completed node is seen by the payload of its first item, by all payloads in
/// order, and by its pass where it counts them.
pub proof fn completed_nodes_show_their_payloads(slot: JsonView, items: Seq<JsonView>, i: int)
    ensures
        ({
            let seen = slot_scope(slot, items);
            &&& seen.get("items"@) is Some && seen.get("items"@)->0 is Array
            &&& seen.get("items"@)->0->Array_0.len() == items.len()
            &&& 0 <= i < items.len() && items[i].get("json"@) is Some ==> seen.get(
                "items"@,
            )->0->Array_0[i] == items[i].get("json"@)->0
            &&& items.len() > 0 && items[0].get("json"@) is Some ==> seen.get("item"@)
                == items[0].get("json"@)
            &&& items.len() == 0 ==> seen.get("item"@) == Some(JsonView::Null)
            &&& seen.get("iteration"@) == slot.get("iteration"@)
        }),
{
    lemma_scope_keys();
    let entries = slot_scope(slot, items)->Object_0;
    assert(entries[0].0 == "item"@ && entries[1].0 == "items"@);
    lemma_member_reads(entries, 0);
    lemma_member_reads(entries, 1);
    if slot.get("iteration"@) is Some {
        assert(entries[2] == ("iteration"@, slot.get("iteration"@)->0));
        lemma_member_reads(entries, 2);
    } else {
        lemma_no_member(entries, "iteration"@);
    }
}

proof fn lemma_slots(slots: Seq<(Seq<char>, JsonView)>, n: nat, i: int)
    requires
        0 <= i < n <= slots.len(),
        forall|a: int, b: int|
            0 <= a < b < slots.len() ==> (#[trigger] slots[a]).0 != (#[trigger] slots[b]).0,
    ensures
        slots[i].1.at("items"@) matches JsonView::Array(items) ==> entry(
            slots_scope(slots, n),
            slots[i].0,
        ) == Some(slot_scope(slots[i].1, items)),
        !(slots[i].1.at("items"@) is Array) ==> entry(slots_scope(slots, n), slots[i].0) is None,
    decreases n,
{
    let rest = slots_scope(slots, (n - 1) as nat);
    let (id, slot) = slots[n - 1];
    if i < n - 1 {
        lemma_slots(slots, (n - 1) as nat, i);
        if slot.at("items"@) is Array {
            lemma_set_member_keeps_others(
                rest,
                id,
                slot_scope(slot, slot.at("items"@)->Array_0),
                slots[i].0,
            );
        }
    } else {
        if slot.at("items"@) is Array {
            lemma_set_member_reads_back(rest, id, slot_scope(slot, slot.at("items"@)->Array_0));
        } else {
            lemma_unseen(slots, (n - 1) as nat, id);
        }
    }
}

proof fn lemma_unseen(slots: Seq<(Seq<char>, JsonView)>, n: nat, id: Seq<char>)
    requires
        n <= slots.len(),
        forall|k: int| 0 <= k < n ==> (#[trigger] slots[k]).0 != id,
    ensures
        entry(slots_scope(slots, n), id) is None,
    decreases n,
{
    if n > 0 {
        lemma_unseen(slots, (n - 1) as nat, id);
        let slot = slots[n - 1].1;
        if slot.at("items"@) is Array {
            lemma_set_member_keeps_others(
                slots_scope(slots, (n - 1) as nat),
                slots[n - 1].0,
                slot_scope(slot, slot.at("items"@)->Array_0),
                id,
            );
        }
    } else {
        lemma_no_member(slots_scope(slots, n), id);
    }
}

/// Expressions see each node that has items, under its id, and no other node.
pub proof fn expressions_see_completed_nodes(slots: Seq<(Seq<char>, JsonView)>, i: int, id: Seq<char>)
    requires
        forall|a: int, b: int|
            0 <= a < b < slots.len() ==> (#[trigger] slots[a]).0 != (#[trigger] slots[b]).0,
    ensures
        0 <= i < slots.len() && slots[i].1.at("items"@) is Array ==> nodes_scope_of(
            JsonView::Object(slots),
        ).get(slots[i].0) == Some(slot_scope(slots[i].1, slots[i].1.at("items"@)->Array_0)),
        0 <= i < slots.len() && !(slots[i].1.at("items"@) is Array) ==> nodes_scope_of(
            JsonView::Object(slots),
        ).get(slots[i].0) is None,
        (forall|k: int| 0 <= k < slots.len() ==> (#[trigger] slots[k]).0 != id) ==> nodes_scope_of(
            JsonView::Object(slots),
        ).get(id) is None,
{
    if 0 <= i < slots.len() {
        lemma_slots(slots, slots.len(), i);
    }
    if forall|k: int| 0 <= k < slots.len() ==> (#[trigger] slots[k]).0 != id {
        lemma_unseen(slots, slots.len(), id);
    }
}

/// The current item of a node is the first of its input, and nothing where it has
/// none; its items are the payloads of its input, in order.
pub proof fn items_are_the_inputs_payloads(input: Seq<ItemView>, i: int)
    ensures
        payloads(input).len() == input.len(),
        0 <= i < input.len() ==> payloads(input)[i] == input[i].json,
        input.len() > 0 ==> first_json(input) == input[0].json,
        input.len() == 0 ==> first_json(input) == JsonView::Null,
{
}

proof fn lemma_mode_names()
    ensures
        "per_item"@ != "once"@,
{
    reveal_strlit("per_item");
    reveal_strlit("once");
    assert("per_item"@.len() == 8 && "once"@.len() == 4);
}

proof fn lemma_policy_names()
    ensures
        "collect"@ != "skip"@,
        "collect"@ != "fail_fast"@,
        "skip"@ != "fail_fast"@,
{
    reveal_strlit("collect");
    reveal_strlit("skip");
    reveal_strlit("fail_fast");
    assert("collect"@.len() == 7 && "skip"@.len() == 4 && "fail_fast"@.len() == 9);
}

/// A node runs as its configuration says, and by default where this says nothing
/// that is known.
pub proof fn modes_are_read_as_written(config: JsonView, other: Seq<char>, default: ExecutionMode)
    ensures
        config.get("execution"@) == Some(JsonView::String("per_item"@)) ==> mode_of(config, default)
            == ExecutionMode::PerItem,
        config.get("execution"@) == Some(JsonView::String("once"@)) ==> mode_of(config, default)
            == ExecutionMode::Once,
        config.get("execution"@) is None ==> mode_of(config, default) == default,
        config.get("execution"@) == Some(JsonView::String(other)) && other != "per_item"@ && other
            != "once"@ ==> mode_of(config, default) == default,
{
    lemma_mode_names();
}

/// So many items run at a time as the configuration says, or all of them; and one
/// where it says nothing that is known.
pub proof fn concurrency_is_read_as_written(config: JsonView, n: u64, other: Seq<char>)
    ensures
        config.get("concurrency"@) == Some(JsonView::Number(NumberView::PosInt(n)))
            ==> concurrency_of(config) == Concurrency::AtMost(n),
        config.get("concurrency"@) == Some(JsonView::String("all"@)) ==> concurrency_of(config)
            == Concurrency::All,
        config.get("concurrency"@) is None ==> concurrency_of(config) == Concurrency::AtMost(1),
        config.get("concurrency"@) == Some(JsonView::String(other)) && other != "all"@
            ==> concurrency_of(config) == Concurrency::AtMost(1),
{
}

/// A failed item is treated as the configuration says, where it says something
/// that is known.
pub proof fn item_errors_are_read_as_written(config: JsonView, other: Seq<char>)
    ensures
        config.get("on_item_error"@) == Some(JsonView::String("collect"@)) ==> on_item_error_of(
            config,
        ) == Some(OnItemError::Collect),
        config.get("on_item_error"@) == Some(JsonView::String("skip"@)) ==> on_item_error_of(config)
            == Some(OnItemError::Skip),
        config.get("on_item_error"@) == Some(JsonView::String("fail_fast"@)) ==> on_item_error_of(
            config,
        ) == Some(OnItemError::FailFast),
        config.get("on_item_error"@) is None ==> on_item_error_of(config) is None,
        config.get("on_item_error"@) == Some(JsonView::String(other)) && other != "collect"@
            && other != "skip"@ && other != "fail_fast"@ ==> on_item_error_of(config) is None,
{
    lemma_policy_names();
}

/// What leaves on the default port carries its items and asks for nothing.
pub proof fn plain_outputs_carry_items_alone(items: Seq<ItemView>)
    ensures
        main_output(items).items == items,
        main_output(items).port is None,
        main_output(items).control is None,
        main_output(items).meta is None,
        main_output(items).diagnostics.len() == 0,
        main_output(items).transcript.len() == 0,
{
}

proof fn lemma_piece_sizes<T>(items: Seq<T>, size: nat, i: int)
    requires
        size > 0,
        0 <= i < pieces(items, size).len(),
    ensures
        i + 1 < pieces(items, size).len() ==> pieces(items, size)[i].len() == size,
        pieces(items, size)[i].len() <= size,
    decreases items.len(),
{
    if items.len() > size {
        let rest = items.skip(size as int);
        if i > 0 {
            lemma_piece_sizes(rest, size, i - 1);
            assert(pieces(items, size)[i] == pieces(rest, size)[i - 1]);
        }
    }
}

/// Where no lane count is asked for, or at least one lane per item, each item has
/// a lane of its own, up to two hundred and fifty-six.
pub proof fn items_have_their_own_lanes<T>(items: Seq<T>, lanes: Option<usize>, i: int)
    requires
        lanes is None || lanes->0 >= items.len(),
        items.len() <= 256,
        0 <= i < lanes_of(items, lanes).len(),
    ensures
        lanes_of(items, lanes)[i].len() == 1,
        lanes_of(items, lanes).len() == items.len(),
{
    splitting_keeps_order(items, lanes);
    assert(share(items.len(), lanes) == 1);
    lemma_piece_sizes(items, 1, i);
    lemma_ones(items);
}

proof fn lemma_ones<T>(items: Seq<T>)
    ensures
        pieces(items, 1).len() == items.len(),
    decreases items.len(),
{
    if items.len() > 1 {
        lemma_ones(items.skip(1));
    }
}

/// The lanes are dealt evenly: all but the last take the same number of items, the
/// last no more, and that number is the least that does for the lanes asked for.
pub proof fn lanes_take_even_shares<T>(items: Seq<T>, n: usize, i: int)
    requires
        0 < n <= 256,
        n < items.len(),
        0 <= i < lanes_of(items, Some(n)).len(),
    ensures
        ({
            let lanes = lanes_of(items, Some(n));
            &&& i + 1 < lanes.len() ==> lanes[i].len() == lanes[0].len()
            &&& lanes[i].len() <= lanes[0].len()
            &&& lanes[0].len() * n >= items.len()
            &&& (lanes[0].len() - 1) * n < items.len()
        }),
{
    let len = items.len() as int;
    let k = n as int;
    let size = share(items.len(), Some(n));
    assert(size == (len + k - 1) / k);
    assert(size * k >= len && (size - 1) * k < len && size > 0) by (nonlinear_arith)
        requires
            size == (len + k - 1) / k,
            0 < k < len,
    ;
    assert((size - 1) * k >= size - 1) by (nonlinear_arith)
        requires
            size > 0,
            k > 0,
    ;
    assert(size <= len) by (nonlinear_arith)
        requires
            (size - 1) * k < len,
            (size - 1) * k >= size - 1,
            size > 0,
    ;
    lemma_piece_sizes(items, size, i);
    lemma_piece_sizes(items, size, 0);
}

/// A fan-out inside a lane is refused, and names its node. Any other opens the
/// lanes of its items, hands nothing on itself, and says how many lanes there are.
pub proof fn fan_outs_open_their_lanes(ctx: ContextView)
    ensures
        ctx.lane is Some ==> scatter_result(ctx) is Err,
        ctx.lane is None ==> {
            let out = scatter_result(ctx)->Ok_0;
            &&& scatter_result(ctx) is Ok
            &&& out.items.len() == 0
            &&& out.port is None
            &&& out.control is Some && out.control->0 is Scatter
            &&& flattened(out.control->0->lanes) == scattered_items(ctx)
            &&& out.control->0->lanes.len() <= 256
            &&& out.meta is Some
            &&& out.meta->0.get("lane_count"@) == Some(
                JsonView::Number(NumberView::PosInt(out.control->0->lanes.len() as u64)),
            )
            &&& ctx.node.config.get("lanes"@) matches Some(
                JsonView::Number(NumberView::PosInt(n)),
            ) ==> (0 < n <= usize::MAX ==> out.control->0->lanes.len() <= n)
        },
{
    if ctx.lane is None {
        let out = scatter_result(ctx)->Ok_0;
        splitting_keeps_order(scattered_items(ctx), lanes_asked(ctx.node.config));
        lemma_member_reads(out.meta->0->Object_0, 0);
    }
}

/// Without a path a fan-out deals its own input. With one it deals the rows of the
/// array that the path leads to in the first item, one item per row and in order;
/// and its own input where the path leads to no array.
pub proof fn fan_outs_deal_what_their_path_leads_to(
    ctx: ContextView,
    path: Seq<char>,
    rows: Seq<JsonView>,
    i: int,
)
    ensures
        ctx.node.config.get("path"@) is None ==> scattered_items(ctx) == ctx.input,
        ctx.node.config.get("path"@) == Some(JsonView::String(path)) && ctx.input.len() > 0 && walk(
            Some(ctx.input[0].json),
            segments(path),
            segments(path).len(),
        ) == Some(JsonView::Array(rows)) ==> {
            &&& scattered_items(ctx).len() == rows.len()
            &&& 0 <= i < rows.len() ==> scattered_items(ctx)[i].json == rows[i]
                && scattered_items(ctx)[i].paired_item is None
        },
        ctx.node.config.get("path"@) == Some(JsonView::String(path)) && ctx.input.len() > 0 && walk(
            Some(ctx.input[0].json),
            segments(path),
            segments(path).len(),
        ) is None ==> scattered_items(ctx) == ctx.input,
{
}

proof fn lemma_walk_front(
    value: Option<JsonView>,
    front: Seq<Seq<char>>,
    back: Seq<Seq<char>>,
    n: nat,
)
    requires
        n <= front.len(),
    ensures
        walk(value, front + back, n) == walk(value, front, n),
    decreases n,
{
    if n > 0 {
        lemma_walk_front(value, front, back, (n - 1) as nat);
    }
}

proof fn lemma_walk_back(
    value: Option<JsonView>,
    front: Seq<Seq<char>>,
    back: Seq<Seq<char>>,
    n: nat,
)
    requires
        n <= back.len(),
    ensures
        walk(value, front + back, front.len() + n) == walk(
            walk(value, front, front.len()),
            back,
            n,
        ),
    decreases n,
{
    lemma_walk_front(value, front, back, front.len());
    if n > 0 {
        lemma_walk_back(value, front, back, (n - 1) as nat);
        assert((front + back)[front.len() + n - 1] == back[n - 1]);
    }
}

/// A path leads through its parts one after the other: a part between two dots
/// leads to the member of that name.
pub proof fn paths_lead_through_members(
    value: JsonView,
    front: Seq<char>,
    back: Seq<char>,
    name: Seq<char>,
)
    requires
        !name.contains('.'),
    ensures
        walk(Some(value), segments(name), segments(name).len()) == value.get(name),
        ({
            let path = front.push('.') + back;
            walk(Some(value), segments(path), segments(path).len()) == walk(
                walk(Some(value), segments(front), segments(front).len()),
                segments(back),
                segments(back).len(),
            )
        }),
{
    lemma_cut_some(name, '.');
    reveal_with_fuel(walk, 2);
    assert(segments(name)[0] == name);
    lemma_cut_joined(front, back, '.');
    lemma_walk_back(Some(value), segments(front), segments(back), segments(back).len());
}

} // verus!
