//! The `scatter` node: fan the downstream path out into parallel lanes.
//!
//! Every node between a scatter and its gather runs once per lane, so one
//! pipeline becomes several concurrent ones, each carrying its own slice.
use vstd::arithmetic::div_mod::{
    lemma_fundamental_div_mod, lemma_fundamental_div_mod_converse, lemma_mod_bound,
};
use vstd::prelude::*;
use vstd::slice::slice_subrange;

use crate::data::{copy_items, plain_item, Item, ItemView};
use crate::json::{count_json, member, members, object, Json, JsonView, NumberView};
use crate::nodes::{
    lane_views, ContextView, EngineError, EngineErrorView, NodeContext, NodeControlView, NodeOutput,
    NodeOutputView,
};
use crate::text::{cut, cut_at, debug_text, lemma_views_push, quoted, views};

verus! {

broadcast use lemma_views_push;

/// The ceiling on how many lanes one scatter may open.
pub const MAX_LANES: usize = 256;

/// How many items one lane takes: one each where there are lanes enough, and
/// else an even share, rounded up.
pub open spec fn share(len: nat, lanes: Option<usize>) -> nat {
    let requested = match lanes {
        Some(n) => if n == 0 {
            1
        } else if n > MAX_LANES {
            MAX_LANES as nat
        } else {
            n as nat
        },
        None => if len > MAX_LANES {
            MAX_LANES as nat
        } else if len == 0 {
            1
        } else {
            len
        },
    };
    if requested >= len {
        1
    } else {
        ((len + requested - 1) as nat / requested) as nat
    }
}

/// A run cut into pieces of `size`, the last one as short as it has to be.
pub open spec fn pieces<T>(items: Seq<T>, size: nat) -> Seq<Seq<T>>
    decreases items.len(),
{
    if items.len() == 0 || size == 0 {
        Seq::empty()
    } else if items.len() <= size {
        seq![items]
    } else {
        seq![items.take(size as int)] + pieces(items.skip(size as int), size)
    }
}

/// The lanes a run of items is split into.
pub open spec fn lanes_of<T>(items: Seq<T>, lanes: Option<usize>) -> Seq<Seq<T>> {
    pieces(items, share(items.len(), lanes))
}

/// Splits items into at most `lanes` slices, keeping their order. Without a
/// lane count every item gets its own lane, up to the ceiling.
pub fn split(items: &[Item], lanes: Option<usize>) -> (r: Vec<Vec<Item>>)
    ensures
        lane_views(r@) == lanes_of(views(items@), lanes),
{
    let mut out: Vec<Vec<Item>> = Vec::new();
    let len: usize = items.len();
    if len == 0 {
        assert(lane_views(out@) =~= lanes_of(views(items@), lanes));
        return out;
    }
    let requested: usize = match lanes {
        Some(n) => if n == 0 {
            1
        } else if n > MAX_LANES {
            MAX_LANES
        } else {
            n
        },
        None => if len > MAX_LANES {
            MAX_LANES
        } else {
            len
        },
    };
    let size: usize = if requested >= len {
        1
    } else {
        let whole: usize = len / requested;
        let left: usize = len % requested;
        proof {
            lemma_round_up(len as int, requested as int);
        }
        if left == 0 {
            whole
        } else {
            whole + 1
        }
    };
    assert(size == share(len as nat, lanes));
    let ghost all = views(items@);
    proof {
        if requested < len {
            lemma_round_up(len as int, requested as int);
        }
    }
    assert(size > 0);
    let mut from: usize = 0;
    assert(all.skip(0) =~= all);
    assert(lane_views(out@) + pieces(all, size as nat) =~= pieces(all, size as nat));
    while from < len
        invariant
            from <= len,
            len == items@.len(),
            size > 0,
            all == views(items@),
            lane_views(out@) + pieces(all.skip(from as int), size as nat) == pieces(
                all,
                size as nat,
            ),
        decreases len - from,
    {
        let to: usize = if len - from <= size {
            len
        } else {
            from + size
        };
        let ghost rest = all.skip(from as int);
        let ghost before = lane_views(out@);
        let lane = copy_items(slice_subrange(items, from, to));
        proof {
            assert(views(lane@) =~= all.subrange(from as int, to as int));
            assert(rest.take(to - from) =~= views(lane@));
            assert(rest.skip(to - from) =~= all.skip(to as int));
            if to == len {
                assert(rest =~= views(lane@));
                assert(all.skip(to as int) =~= Seq::empty());
                assert(pieces(rest, size as nat) =~= seq![views(lane@)] + pieces(
                    all.skip(to as int),
                    size as nat,
                ));
            } else {
                assert(pieces(rest, size as nat) =~= seq![views(lane@)] + pieces(
                    all.skip(to as int),
                    size as nat,
                ));
            }
        }
        out.push(lane);
        proof {
            assert(lane_views(out@) =~= before.push(views(lane@)));
            assert(lane_views(out@) + pieces(all.skip(to as int), size as nat) =~= before
                + pieces(rest, size as nat));
        }
        from = to;
    }
    assert(all.skip(from as int) =~= Seq::empty());
    assert(lane_views(out@) =~= pieces(all, size as nat));
    out
}

proof fn lemma_round_up(len: int, requested: int)
    requires
        0 < requested < len,
    ensures
        (len + requested - 1) / requested == (if len % requested == 0 {
            len / requested
        } else {
            len / requested + 1
        }),
        len / requested >= 1,
        len % requested != 0 ==> len / requested + 1 <= len,
{
    let q = len / requested;
    let r = len % requested;
    lemma_fundamental_div_mod(len, requested);
    lemma_mod_bound(len, requested);
    assert(q >= 1) by (nonlinear_arith)
        requires
            len == requested * q + r,
            r < requested,
            requested < len,
            requested > 0,
    ;
    if r == 0 {
        assert(len + requested - 1 == q * requested + (requested - 1)) by (nonlinear_arith)
            requires
                len == requested * q + r,
                r == 0,
        ;
        lemma_fundamental_div_mod_converse(len + requested - 1, requested, q, requested - 1);
    } else {
        assert(len + requested - 1 == (q + 1) * requested + (r - 1)) by (nonlinear_arith)
            requires
                len == requested * q + r,
        ;
        lemma_fundamental_div_mod_converse(len + requested - 1, requested, q + 1, r - 1);
        assert(q + 1 <= len) by (nonlinear_arith)
            requires
                len == requested * q + r,
                requested > 0,
                r > 0,
                q >= 1,
        ;
    }
}

/// The value that a dotted path leads to.
pub open spec fn walk(value: Option<JsonView>, path: Seq<Seq<char>>, n: nat) -> Option<JsonView>
    decreases n,
{
    if n == 0 {
        value
    } else {
        match walk(value, path, (n - 1) as nat) {
            Some(inner) => inner.get(path[n - 1]),
            None => None,
        }
    }
}

/// A text cut at each `.`.
pub open spec fn segments(text: Seq<char>) -> Seq<Seq<char>> {
    cut(text, '.')
}

/// Cuts a text at each `.`.
pub fn split_path(text: &str) -> (r: Vec<String>)
    ensures
        views(r@) == segments(text@),
{
    cut_at(text, '.')
}

fn follow<'a>(value: &'a Json, path: &Vec<String>) -> (r: Option<&'a Json>)
    ensures
        match r {
            Some(found) => walk(Some(value@), views(path@), path@.len()) == Some(found@),
            None => walk(Some(value@), views(path@), path@.len()) is None,
        },
{
    let mut at: Option<&'a Json> = Some(value);
    let ghost names = views(path@);
    let mut i: usize = 0;
    while i < path.len()
        invariant
            i <= path@.len(),
            names == views(path@),
            match at {
                Some(found) => walk(Some(value@), names, i as nat) == Some(found@),
                None => walk(Some(value@), names, i as nat) is None,
            },
        decreases path@.len() - i,
    {
        assert(names[i as int] == path@[i as int]@);
        at = match at {
            Some(inner) => inner.get(path[i].as_str()),
            None => None,
        };
        i = i + 1;
    }
    at
}

pub open spec fn plain_items(values: Seq<JsonView>) -> Seq<ItemView> {
    Seq::new(values.len(), |i: int| plain_item(values[i]))
}

/// The items to fan out over: the rows of the array that `path` leads to in
/// the first item, or else the input itself.
pub open spec fn scattered_items(ctx: ContextView) -> Seq<ItemView> {
    match ctx.node.config.text_at("path"@) {
        Some(path) => {
            let source = if ctx.input.len() > 0 {
                Some(ctx.input[0].json)
            } else {
                None
            };
            match walk(source, segments(path), segments(path).len()) {
                Some(value) => match value.as_array() {
                    Some(values) => plain_items(values),
                    None => ctx.input,
                },
                None => ctx.input,
            }
        },
        None => ctx.input,
    }
}

/// The lane count a configuration asks for.
pub open spec fn lanes_asked(config: JsonView) -> Option<usize> {
    match config.at("lanes"@).as_u64() {
        Some(n) => if n > 0 && n <= usize::MAX {
            Some(n as usize)
        } else {
            None
        },
        None => None,
    }
}

pub open spec fn nested_reason(id: Seq<char>) -> Seq<char> {
    "scatter node "@ + debug_text(id)
        + ": nested scatter is not supported — this activation is already inside a lane"@
}

/// What a scatter hands back.
pub open spec fn scatter_result(ctx: ContextView) -> Result<NodeOutputView, EngineErrorView> {
    if ctx.lane is Some {
        Err(EngineErrorView::Capability(nested_reason(ctx.node.id)))
    } else {
        let lanes = lanes_of(scattered_items(ctx), lanes_asked(ctx.node.config));
        Ok(
            NodeOutputView {
                items: Seq::empty(),
                port: None,
                diagnostics: Seq::empty(),
                transcript: Seq::empty(),
                meta: Some(
                    JsonView::Object(
                        seq![
                            (
                                "lane_count"@,
                                JsonView::Number(NumberView::PosInt(lanes.len() as u64)),
                            ),
                        ],
                    ),
                ),
                control: Some(NodeControlView::Scatter { lanes }),
            },
        )
    }
}

/// Fans the downstream path out into one lane per slice of its input.
#[derive(Debug, Clone, Copy)]
pub struct ScatterNode;

fn rows_as_items(values: &Vec<Json>) -> (r: Vec<Item>)
    ensures
        views(r@) == plain_items(views(values@)),
{
    let mut items: Vec<Item> = Vec::new();
    let mut i: usize = 0;
    while i < values.len()
        invariant
            i <= values@.len(),
            items@.len() == i,
            forall|k: int| 0 <= k < i ==> (#[trigger] items@[k])@ == plain_item(values@[k]@),
        decreases values@.len() - i,
    {
        items.push(Item::new(values[i].clone()));
        i = i + 1;
    }
    assert(views(items@) =~= plain_items(views(values@)));
    items
}

impl ScatterNode {
    fn source_items(&self, ctx: &NodeContext) -> (r: Vec<Item>)
        ensures
            views(r@) == scattered_items(ctx@),
    {
        match ctx.node.config.text_at("path") {
            Some(path) => {
                let names = split_path(path);
                assert(views(names@).len() == names@.len());
                let found = if ctx.input.len() > 0 {
                    assert(ctx@.input[0] == ctx.input@[0]@);
                    follow(&ctx.input[0].json, &names)
                } else {
                    proof {
                        lemma_walk_nothing(views(names@), names@.len());
                    }
                    None
                };
                match found {
                    Some(value) => match value.as_array() {
                        Some(values) => rows_as_items(values),
                        None => copy_items(ctx.input.as_slice()),
                    },
                    None => copy_items(ctx.input.as_slice()),
                }
            },
            None => copy_items(ctx.input.as_slice()),
        }
    }

    /// Opens the lanes. A scatter inside a lane is refused.
    pub fn execute(&self, ctx: &NodeContext) -> (r: Result<NodeOutput, EngineError>)
        ensures
            match r {
                Ok(out) => scatter_result(ctx@) == Ok::<NodeOutputView, EngineErrorView>(out@),
                Err(error) => scatter_result(ctx@) == Err::<NodeOutputView, EngineErrorView>(
                    error@,
                ),
            },
    {
        if ctx.lane.is_some() {
            let mut reason = "scatter node ".to_owned();
            reason.append(quoted(ctx.node.id.as_str()).as_str());
            reason.append(
                ": nested scatter is not supported — this activation is already inside a lane",
            );
            return Err(EngineError::Capability(reason));
        }
        let items = self.source_items(ctx);
        let requested: Option<usize> = match ctx.node.config.get("lanes") {
            Some(value) => match value.as_u64() {
                Some(n) => if n > 0 && n <= usize::MAX as u64 {
                    Some(n as usize)
                } else {
                    None
                },
                None => None,
            },
            None => None,
        };
        assert(requested == lanes_asked(ctx@.node.config));
        let lanes = split(items.as_slice(), requested);
        assert(lane_views(lanes@).len() == lanes@.len());
        let mut entries: Vec<(String, Json)> = Vec::new();
        entries.push(member("lane_count", count_json(lanes.len() as u64)));
        assert(members(entries@) =~= seq![
            ("lane_count"@, JsonView::Number(NumberView::PosInt(lanes@.len() as u64))),
        ]);
        Ok(NodeOutput::scatter(lanes, object(entries)))
    }
}

proof fn lemma_walk_nothing(path: Seq<Seq<char>>, n: nat)
    ensures
        walk(None, path, n) is None,
    decreases n,
{
    if n > 0 {
        lemma_walk_nothing(path, (n - 1) as nat);
    }
}

/// The pieces, one after another.
pub open spec fn flattened<T>(parts: Seq<Seq<T>>) -> Seq<T>
    decreases parts.len(),
{
    if parts.len() == 0 {
        Seq::empty()
    } else {
        parts[0] + flattened(parts.drop_first())
    }
}

proof fn lemma_pieces<T>(items: Seq<T>, size: nat)
    requires
        size > 0,
    ensures
        flattened(pieces(items, size)) == items,
        pieces(items, size).len() * size < items.len() + size,
        forall|i: int|
            0 <= i < pieces(items, size).len() ==> 0 < (#[trigger] pieces(items, size)[i]).len()
                <= size,
    decreases items.len(),
{
    let all = pieces(items, size);
    if items.len() == 0 {
        assert(flattened(all) =~= items);
        assert(0 * size == 0) by (nonlinear_arith);
        assert(all.len() == 0);
    } else if items.len() <= size {
        reveal_with_fuel(flattened, 2);
        assert(all.drop_first() =~= Seq::empty());
        assert(flattened(all) =~= items);
        assert(1 * size == size) by (nonlinear_arith);
        assert(all.len() == 1);
    } else {
        let rest = items.skip(size as int);
        lemma_pieces(rest, size);
        assert(all.drop_first() =~= pieces(rest, size));
        assert(flattened(all) =~= items);
        let n = pieces(rest, size).len();
        let m = all.len();
        assert(m == n + 1);
        assert(m * size == n * size + size) by (nonlinear_arith)
            requires
                m == n + 1,
        ;
        assert(rest.len() + size == items.len());
        assert forall|i: int| 0 <= i < all.len() implies 0 < (#[trigger] all[i]).len() <= size by {
            if i > 0 {
                assert(all[i] == pieces(rest, size)[i - 1]);
            }
        }
    }
}

/// Splitting keeps every item in its order, leaves no lane empty, and opens no
/// more lanes than were asked for, nor more than the ceiling.
pub proof fn splitting_keeps_order<T>(items: Seq<T>, lanes: Option<usize>)
    ensures
        flattened(lanes_of(items, lanes)) == items,
        forall|i: int|
            0 <= i < lanes_of(items, lanes).len() ==> (#[trigger] lanes_of(items, lanes)[i]).len()
                > 0,
        lanes_of(items, lanes).len() <= MAX_LANES,
        lanes matches Some(n) ==> n > 0 ==> lanes_of(items, lanes).len() <= n,
        lanes_of(items, lanes).len() <= items.len(),
{
    let len = items.len();
    let size = share(len, lanes);
    let requested: int = match lanes {
        Some(n) => if n == 0 {
            1
        } else if n > MAX_LANES {
            MAX_LANES as int
        } else {
            n as int
        },
        None => if len > MAX_LANES {
            MAX_LANES as int
        } else if len == 0 {
            1
        } else {
            len as int
        },
    };
    if requested < len {
        lemma_round_up(len as int, requested);
        lemma_covers(len as int, requested);
    }
    assert(size > 0);
    lemma_pieces(items, size);
    let count = lanes_of(items, lanes).len() as int;
    if requested < len {
        assert(count <= requested) by (nonlinear_arith)
            requires
                count * size < len + size,
                len <= requested * size,
                size > 0,
        ;
    } else {
        assert(count * 1 == count);
    }
    assert(count <= len) by (nonlinear_arith)
        requires
            count * size < len + size,
            size >= 1,
            len >= 0,
            count >= 0,
    ;
}

proof fn lemma_covers(len: int, requested: int)
    by (nonlinear_arith)
    requires
        0 < requested < len,
    ensures
        len <= requested * ((len + requested - 1) / requested),
{
}

} // verus!
