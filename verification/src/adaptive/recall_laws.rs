//! What holds of everything that is recalled: which lessons a planner sees, and in
//! what order.
use vstd::prelude::*;

use crate::adaptive::episode_laws::rates_are_fractions;
use crate::adaptive::ledger::{LessonKind, LessonView};
use crate::adaptive::recall::{
    constraints, in_order, lemma_rank_of, lessons_come_best_first, listed_before, of_kind, others,
    rank_of, ranked, retrieved, text_below,
};

verus! {

/// Texts are ordered by the first character in which they differ, and a text comes
/// before whatever goes on from it.
pub proof fn texts_are_ordered_by_characters(front: Seq<char>, a: Seq<char>, b: Seq<char>)
    ensures
        a.len() > 0 && b.len() > 0 && a[0] != b[0] ==> (text_below(front + a, front + b) <==> a[0]
            < b[0]),
        a.len() == 0 ==> (text_below(front + a, front + b) <==> b.len() > 0),
        !text_below(front, front),
    decreases front.len(),
{
    if front.len() > 0 {
        let rest = front.drop_first();
        texts_are_ordered_by_characters(rest, a, b);
        assert((front + a).drop_first() =~= rest + a);
        assert((front + b).drop_first() =~= rest + b);
    } else {
        assert(front + a =~= a);
        assert(front + b =~= b);
    }
}

/// A lesson that helped a larger share of the times it was applied is listed
/// first; of two that helped alike, the one with the smaller id.
pub proof fn lessons_are_listed_by_their_help(a: LessonView, b: LessonView)
    requires
        a.applied > 0,
        b.applied > 0,
    ensures
        a.helped * b.applied > b.helped * a.applied ==> listed_before(a, b),
        a.helped * b.applied < b.helped * a.applied ==> !listed_before(a, b),
        a.helped * b.applied == b.helped * a.applied ==> (listed_before(a, b) <==> text_below(
            a.id,
            b.id,
        )),
{
    rates_are_fractions(a.applied, a.helped, b.applied, b.helped);
    rates_are_fractions(b.applied, b.helped, a.applied, a.helped);
}

/// A lesson that never helped anyone is listed behind one that did.
pub proof fn untried_lessons_come_last(a: LessonView, b: LessonView)
    requires
        a.applied > 0,
        a.helped > 0,
        b.applied == 0,
    ensures
        listed_before(a, b),
        !listed_before(b, a),
{
    rates_are_fractions(a.applied, a.helped, b.applied, b.helped);
    rates_are_fractions(b.applied, b.helped, a.applied, a.helped);
}

/// `part` is what is left of the first `n` of `whole`, in order.
spec fn picked(whole: Seq<LessonView>, n: nat, part: Seq<LessonView>) -> bool {
    forall|x: int|
        0 <= x < part.len() ==> exists|p: int| 0 <= p < n && whole[p] == #[trigger] part[x]
}

proof fn lemma_of_kind_members(lessons: Seq<LessonView>, kind: Option<LessonKind>, n: nat)
    requires
        n <= lessons.len(),
    ensures
        picked(lessons, n, of_kind(lessons, kind, n)),
        forall|x: int|
            0 <= x < of_kind(lessons, kind, n).len() ==> kind is None || kind == Some(
                (#[trigger] of_kind(lessons, kind, n)[x]).kind,
            ),
        forall|p: int|
            0 <= p < n && (kind is None || kind == Some((#[trigger] lessons[p]).kind)) ==> of_kind(
                lessons,
                kind,
                n,
            ).contains(lessons[p]),
    decreases n,
{
    if n > 0 {
        let m = (n - 1) as nat;
        lemma_of_kind_members(lessons, kind, m);
        let before = of_kind(lessons, kind, m);
        let after = of_kind(lessons, kind, n);
        assert forall|x: int| 0 <= x < after.len() implies exists|p: int|
            0 <= p < n && lessons[p] == #[trigger] after[x] by {
            if x < before.len() {
                assert(after[x] == before[x]);
                let p = choose|p: int| 0 <= p < m && lessons[p] == before[x];
                assert(0 <= p < n && lessons[p] == after[x]);
            } else {
                assert(lessons[n - 1] == after[x]);
            }
        }
        assert forall|p: int|
            0 <= p < n && (kind is None || kind == Some((#[trigger] lessons[p]).kind)) implies
            after.contains(lessons[p]) by {
            if p < m {
                assert(before.contains(lessons[p]));
                let x = choose|x: int| 0 <= x < before.len() && before[x] == lessons[p];
                assert(after[x] == lessons[p]);
            } else {
                assert(after[before.len() as int] == lessons[p]);
            }
        }
    }
}

proof fn lemma_split(order: Seq<LessonView>, n: nat)
    requires
        n <= order.len(),
        in_order(order),
    ensures
        picked(order, n, constraints(order, n)),
        picked(order, n, others(order, n)),
        in_order(others(order, n)),
        in_order(constraints(order, n)),
        forall|x: int|
            0 <= x < constraints(order, n).len() ==> (#[trigger] constraints(order, n)[x]).kind
                == LessonKind::Constraint,
        forall|x: int|
            0 <= x < others(order, n).len() ==> (#[trigger] others(order, n)[x]).kind
                != LessonKind::Constraint,
        forall|p: int|
            0 <= p < n && (#[trigger] order[p]).kind == LessonKind::Constraint ==> constraints(
                order,
                n,
            ).contains(order[p]),
        forall|p: int|
            0 <= p < n && (#[trigger] order[p]).kind != LessonKind::Constraint ==> others(
                order,
                n,
            ).contains(order[p]),
    decreases n,
{
    if n > 0 {
        let m = (n - 1) as nat;
        lemma_split(order, m);
        let last = order[n - 1];
        let c = constraints(order, m);
        let o = others(order, m);
        let c2 = constraints(order, n);
        let o2 = others(order, n);
        assert forall|x: int| 0 <= x < c2.len() implies exists|p: int|
            0 <= p < n && order[p] == #[trigger] c2[x] by {
            if x < c.len() {
                assert(c2[x] == c[x]);
                let p = choose|p: int| 0 <= p < m && order[p] == c[x];
                assert(0 <= p < n && order[p] == c2[x]);
            } else {
                assert(order[n - 1] == c2[x]);
            }
        }
        assert forall|x: int| 0 <= x < o2.len() implies exists|p: int|
            0 <= p < n && order[p] == #[trigger] o2[x] by {
            if x < o.len() {
                assert(o2[x] == o[x]);
                let p = choose|p: int| 0 <= p < m && order[p] == o[x];
                assert(0 <= p < n && order[p] == o2[x]);
            } else {
                assert(order[n - 1] == o2[x]);
            }
        }
        assert forall|i: int, j: int| 0 <= i < j < o2.len() implies !listed_before(
            #[trigger] o2[j],
            #[trigger] o2[i],
        ) by {
            assert(o2[i] == o[i]);
            if j < o.len() {
                assert(o2[j] == o[j]);
            } else {
                let p = choose|p: int| 0 <= p < m && order[p] == o[i];
                assert(!listed_before(order[n - 1], order[p]));
            }
        }
        assert forall|i: int, j: int| 0 <= i < j < c2.len() implies !listed_before(
            #[trigger] c2[j],
            #[trigger] c2[i],
        ) by {
            assert(c2[i] == c[i]);
            if j < c.len() {
                assert(c2[j] == c[j]);
            } else {
                let p = choose|p: int| 0 <= p < m && order[p] == c[i];
                assert(!listed_before(order[n - 1], order[p]));
            }
        }
        assert forall|p: int| 0 <= p < n && (#[trigger] order[p]).kind
            == LessonKind::Constraint implies c2.contains(order[p]) by {
            if p < m {
                assert(c.contains(order[p]));
                let x = choose|x: int| 0 <= x < c.len() && c[x] == order[p];
                assert(c2[x] == order[p]);
            } else {
                assert(c2[c.len() as int] == order[p]);
            }
        }
        assert forall|p: int| 0 <= p < n && (#[trigger] order[p]).kind
            != LessonKind::Constraint implies o2.contains(order[p]) by {
            if p < m {
                assert(o.contains(order[p]));
                let x = choose|x: int| 0 <= x < o.len() && o[x] == order[p];
                assert(o2[x] == order[p]);
            } else {
                assert(o2[o.len() as int] == order[p]);
            }
        }
    }
}

proof fn lemma_ranked_same(lessons: Seq<LessonView>, n: nat)
    requires
        n <= lessons.len(),
    ensures
        picked(lessons, n, ranked(lessons, n)),
        forall|p: int| 0 <= p < n ==> ranked(lessons, n).contains(#[trigger] lessons[p]),
    decreases n,
{
    if n > 0 {
        let m = (n - 1) as nat;
        lemma_ranked_same(lessons, m);
        let rest = ranked(lessons, m);
        let last = lessons[n - 1];
        let at = rank_of(rest, last) as int;
        lemma_rank_of(rest, last);
        let now = ranked(lessons, n);
        assert(now == rest.insert(at, last));
        assert forall|x: int| 0 <= x < now.len() implies exists|p: int|
            0 <= p < n && lessons[p] == #[trigger] now[x] by {
            if x == at {
                assert(lessons[n - 1] == now[x]);
            } else {
                let y = if x < at {
                    x
                } else {
                    x - 1
                };
                assert(now[x] == rest[y]);
                let p = choose|p: int| 0 <= p < m && lessons[p] == rest[y];
                assert(0 <= p < n && lessons[p] == now[x]);
            }
        }
        assert forall|p: int| 0 <= p < n implies now.contains(#[trigger] lessons[p]) by {
            if p < m {
                assert(rest.contains(lessons[p]));
                let y = choose|y: int| 0 <= y < rest.len() && rest[y] == lessons[p];
                if y < at {
                    assert(now[y] == lessons[p]);
                } else {
                    assert(now[y + 1] == lessons[p]);
                }
            } else {
                assert(now[at] == lessons[p]);
            }
        }
    }
}

/// Only lessons that are there are recalled, of the kind that is asked for; and
/// the constraints come before the rest.
pub proof fn recalled_lessons_are_ones_that_were_asked_for(
    lessons: Seq<LessonView>,
    kind: Option<LessonKind>,
    k: nat,
    x: int,
    y: int,
)
    requires
        0 <= x < retrieved(lessons, kind, k).len(),
    ensures
        lessons.contains(retrieved(lessons, kind, k)[x]),
        kind is None || kind == Some(retrieved(lessons, kind, k)[x].kind),
        0 <= x < y < retrieved(lessons, kind, k).len() && retrieved(lessons, kind, k)[y].kind
            == LessonKind::Constraint ==> retrieved(lessons, kind, k)[x].kind
            == LessonKind::Constraint,
{
    let pool = of_kind(lessons, kind, lessons.len());
    let order = ranked(pool, pool.len());
    lessons_come_best_first(pool, pool.len());
    lemma_of_kind_members(lessons, kind, lessons.len());
    lemma_ranked_same(pool, pool.len());
    lemma_split(order, order.len());
    let head = constraints(order, order.len());
    let tail = others(order, order.len());
    let shown = retrieved(lessons, kind, k);
    let p = if x < head.len() {
        assert(shown[x] == head[x]);
        choose|p: int| 0 <= p < order.len() && order[p] == head[x]
    } else {
        assert(shown[x] == tail[x - head.len()]);
        choose|p: int| 0 <= p < order.len() && order[p] == tail[x - head.len()]
    };
    assert(order[p] == shown[x]);
    let q = choose|q: int| 0 <= q < pool.len() && pool[q] == order[p];
    assert(pool[q] == shown[x]);
    let r = choose|r: int| 0 <= r < lessons.len() && lessons[r] == pool[q];
    assert(lessons[r] == shown[x]);
    if x < y < shown.len() {
        if y >= head.len() {
            assert(shown[y] == tail[y - head.len()]);
        }
    }
}

/// Of the lessons that are asked for and are no constraints, one is left out only
/// where as many as fit are shown, and none of them should have come behind it.
pub proof fn the_best_lessons_are_recalled(
    lessons: Seq<LessonView>,
    kind: Option<LessonKind>,
    k: nat,
    i: int,
    x: int,
)
    requires
        0 <= i < lessons.len(),
        kind is None || kind == Some(lessons[i].kind),
        !retrieved(lessons, kind, k).contains(lessons[i]),
    ensures
        lessons[i].kind != LessonKind::Constraint,
        retrieved(lessons, kind, k).len() >= k,
        0 <= x < retrieved(lessons, kind, k).len() && retrieved(lessons, kind, k)[x].kind
            != LessonKind::Constraint ==> !listed_before(
            lessons[i],
            retrieved(lessons, kind, k)[x],
        ),
{
    let pool = of_kind(lessons, kind, lessons.len());
    let order = ranked(pool, pool.len());
    lessons_come_best_first(pool, pool.len());
    lemma_of_kind_members(lessons, kind, lessons.len());
    lemma_ranked_same(pool, pool.len());
    lemma_split(order, order.len());
    let head = constraints(order, order.len());
    let tail = others(order, order.len());
    let shown = retrieved(lessons, kind, k);
    assert(pool.contains(lessons[i]));
    let q = choose|q: int| 0 <= q < pool.len() && pool[q] == lessons[i];
    assert(order.contains(pool[q]));
    let p = choose|p: int| 0 <= p < order.len() && order[p] == pool[q];
    if order[p].kind == LessonKind::Constraint {
        assert(head.contains(order[p]));
        let h = choose|h: int| 0 <= h < head.len() && head[h] == order[p];
        assert(shown[h] == lessons[i]);
    } else {
        assert(tail.contains(order[p]));
        let t = choose|t: int| 0 <= t < tail.len() && tail[t] == order[p];
        if tail.len() <= k || t < k {
            assert(shown[head.len() + t] == lessons[i]);
        }
        if 0 <= x < shown.len() && shown[x].kind != LessonKind::Constraint {
            if x < head.len() {
                assert(shown[x] == head[x]);
            } else {
                assert(shown[x] == tail[x - head.len()]);
                assert(x - head.len() < t);
            }
        }
    }
}

} // verus!
