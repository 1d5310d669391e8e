//! What a planner is told about the past: this episode's attempts, and the
//! lessons of other episodes.
use vstd::prelude::*;

use crate::adaptive::ledger::{LedgerRow, Lesson, LessonKind, LessonView, RowView};
use crate::adaptive::promotion::{rate_below, rate_is_below, rates_are_ordered};
use crate::text::{
    chars_of, decimal, decimal_text, join, joined_text, lemma_views_push, views,
};

verus! {

broadcast use lemma_views_push;

/// Lessons put in front of one planner, beyond the ones that always load.
pub const RECALL_LIMIT: usize = 5;

/// Text order: by the first character that differs, and else the shorter first.
pub open spec fn text_below(a: Seq<char>, b: Seq<char>) -> bool
    decreases a.len(),
{
    if b.len() == 0 {
        false
    } else if a.len() == 0 {
        true
    } else if a[0] != b[0] {
        a[0] < b[0]
    } else {
        text_below(a.drop_first(), b.drop_first())
    }
}

/// Whether the first text comes before the second.
pub fn comes_before(a: &str, b: &str) -> (r: bool)
    ensures
        r == text_below(a@, b@),
{
    let x = chars_of(a);
    let y = chars_of(b);
    let mut i: usize = 0;
    assert(x@.skip(0) =~= a@);
    assert(y@.skip(0) =~= b@);
    while i < x.len() && i < y.len()
        invariant
            i <= x.len(),
            i <= y.len(),
            text_below(a@, b@) == text_below(x@.skip(i as int), y@.skip(i as int)),
        decreases x.len() - i,
    {
        if x[i] != y[i] {
            return x[i] < y[i];
        }
        assert(x@.skip(i as int).drop_first() =~= x@.skip(i + 1));
        assert(y@.skip(i as int).drop_first() =~= y@.skip(i + 1));
        i = i + 1;
    }
    i < y.len()
}

/// The first lesson is listed before the second: it helped more often, or
/// equally often with the smaller id.
pub open spec fn listed_before(a: LessonView, b: LessonView) -> bool {
    ||| rate_below(b.applied, b.helped, a.applied, a.helped)
    ||| !rate_below(a.applied, a.helped, b.applied, b.helped) && text_below(a.id, b.id)
}

fn is_listed_before(a: &Lesson, b: &Lesson) -> (r: bool)
    ensures
        r == listed_before(a@, b@),
{
    rate_is_below(b.applied, b.helped, a.applied, a.helped) || (!rate_is_below(
        a.applied,
        a.helped,
        b.applied,
        b.helped,
    ) && comes_before(a.id.as_str(), b.id.as_str()))
}

/// How many of the ranked lessons, from the front, stay before a new one: all
/// up to the last that the new one is not listed before.
pub open spec fn rank_of(ranked: Seq<LessonView>, lesson: LessonView) -> nat
    decreases ranked.len(),
{
    if ranked.len() == 0 {
        0
    } else if listed_before(lesson, ranked.last()) {
        rank_of(ranked.drop_last(), lesson)
    } else {
        ranked.len()
    }
}

pub proof fn lemma_rank_of(ranked: Seq<LessonView>, lesson: LessonView)
    ensures
        rank_of(ranked, lesson) <= ranked.len(),
    decreases ranked.len(),
{
    if ranked.len() > 0 && listed_before(lesson, ranked.last()) {
        lemma_rank_of(ranked.drop_last(), lesson);
    }
}

/// The first `n` lessons, best first; lessons that rank alike keep their order.
pub open spec fn ranked(lessons: Seq<LessonView>, n: nat) -> Seq<LessonView>
    decreases n,
{
    if n == 0 {
        Seq::empty()
    } else {
        let rest = ranked(lessons, (n - 1) as nat);
        rest.insert(rank_of(rest, lessons[n - 1]) as int, lessons[n - 1])
    }
}

/// The lessons of the wanted kind among the first `n`, in order.
pub open spec fn of_kind(lessons: Seq<LessonView>, kind: Option<LessonKind>, n: nat) -> Seq<
    LessonView,
>
    decreases n,
{
    if n == 0 {
        Seq::empty()
    } else if kind is None || kind == Some(lessons[n - 1].kind) {
        of_kind(lessons, kind, (n - 1) as nat).push(lessons[n - 1])
    } else {
        of_kind(lessons, kind, (n - 1) as nat)
    }
}

/// The constraints among the first `n`, in order.
pub open spec fn constraints(lessons: Seq<LessonView>, n: nat) -> Seq<LessonView>
    decreases n,
{
    if n == 0 {
        Seq::empty()
    } else if lessons[n - 1].kind == LessonKind::Constraint {
        constraints(lessons, (n - 1) as nat).push(lessons[n - 1])
    } else {
        constraints(lessons, (n - 1) as nat)
    }
}

/// The others among the first `n`, in order.
pub open spec fn others(lessons: Seq<LessonView>, n: nat) -> Seq<LessonView>
    decreases n,
{
    if n == 0 {
        Seq::empty()
    } else if lessons[n - 1].kind == LessonKind::Constraint {
        others(lessons, (n - 1) as nat)
    } else {
        others(lessons, (n - 1) as nat).push(lessons[n - 1])
    }
}

/// The lessons a planner sees: every constraint, and then the best `k` of the
/// others.
pub open spec fn retrieved(lessons: Seq<LessonView>, kind: Option<LessonKind>, k: nat) -> Seq<
    LessonView,
> {
    let pool = of_kind(lessons, kind, lessons.len());
    let order = ranked(pool, pool.len());
    let rest = others(order, order.len());
    constraints(order, order.len()) + (if rest.len() > k {
        rest.take(k as int)
    } else {
        rest
    })
}

proof fn lemma_ranked_len(lessons: Seq<LessonView>, n: nat)
    requires
        n <= lessons.len(),
    ensures
        ranked(lessons, n).len() == n,
    decreases n,
{
    if n > 0 {
        lemma_ranked_len(lessons, (n - 1) as nat);
        lemma_rank_of(ranked(lessons, (n - 1) as nat), lessons[n - 1]);
    }
}

fn rank(lessons: Vec<Lesson>) -> (r: Vec<Lesson>)
    ensures
        views(r@) == ranked(views(lessons@), lessons@.len()),
{
    let ghost pool = views(lessons@);
    let mut order: Vec<Lesson> = Vec::new();
    let mut i: usize = 0;
    assert(views(order@) =~= ranked(pool, 0));
    while i < lessons.len()
        invariant
            i <= lessons@.len(),
            pool == views(lessons@),
            order@.len() == i,
            views(order@) == ranked(pool, i as nat),
        decreases lessons@.len() - i,
    {
        let lesson = lessons[i].clone();
        assert(pool[i as int] == lesson@);
        let ghost before = views(order@);
        let mut at: usize = order.len();
        assert(before.take(at as int) =~= before);
        while at > 0 && is_listed_before(&lesson, &order[at - 1])
            invariant
                at <= order@.len(),
                before == views(order@),
                rank_of(before, lesson@) == rank_of(before.take(at as int), lesson@),
            decreases at,
        {
            assert(before.take(at as int).last() == order@[at - 1]@);
            assert(before.take(at as int).drop_last() =~= before.take(at - 1));
            at = at - 1;
        }
        proof {
            if at > 0 {
                assert(before.take(at as int).last() == order@[at - 1]@);
            }
            assert(rank_of(before, lesson@) == at);
        }
        order.insert(at, lesson);
        assert(views(order@) =~= before.insert(at as int, lesson@));
        i = i + 1;
    }
    order
}

/// Chooses which lessons a planner sees, best help rate first and ties by id.
/// Constraints load wholesale; the rest are capped at `k`.
pub fn retrieve(lessons: Vec<Lesson>, kind: Option<LessonKind>, k: usize) -> (r: Vec<Lesson>)
    ensures
        views(r@) == retrieved(views(lessons@), kind, k as nat),
{
    let ghost all = views(lessons@);
    let mut pool: Vec<Lesson> = Vec::new();
    let mut i: usize = 0;
    assert(views(pool@) =~= of_kind(all, kind, 0));
    while i < lessons.len()
        invariant
            i <= lessons@.len(),
            all == views(lessons@),
            views(pool@) == of_kind(all, kind, i as nat),
        decreases lessons@.len() - i,
    {
        assert(all[i as int] == lessons@[i as int]@);
        let sought = match kind {
            Some(want) => lessons[i].kind == want,
            None => true,
        };
        if sought {
            pool.push(lessons[i].clone());
        }
        i = i + 1;
    }
    assert(views(pool@).len() == pool@.len());
    let order = rank(pool);
    let ghost sorted = views(order@);
    let mut shown: Vec<Lesson> = Vec::new();
    let mut rest: Vec<Lesson> = Vec::new();
    let mut j: usize = 0;
    assert(views(shown@) =~= constraints(sorted, 0));
    assert(views(rest@) =~= others(sorted, 0));
    while j < order.len()
        invariant
            j <= order@.len(),
            sorted == views(order@),
            views(shown@) == constraints(sorted, j as nat),
            views(rest@) == others(sorted, j as nat),
        decreases order@.len() - j,
    {
        assert(sorted[j as int] == order@[j as int]@);
        if order[j].kind == LessonKind::Constraint {
            shown.push(order[j].clone());
        } else {
            rest.push(order[j].clone());
        }
        j = j + 1;
    }
    let ghost kept = views(rest@);
    rest.truncate(k);
    let ghost head = views(shown@);
    proof {
        assert(views(rest@) =~= (if kept.len() > k {
            kept.take(k as int)
        } else {
            kept
        }));
    }
    let ghost tail = views(rest@);
    shown.append(&mut rest);
    assert(views(shown@) =~= head + tail);
    shown
}

proof fn lemma_constraints_kept(lessons: Seq<LessonView>, n: nat, i: int)
    requires
        n <= lessons.len(),
        0 <= i < n,
        lessons[i].kind == LessonKind::Constraint,
    ensures
        constraints(lessons, n).contains(lessons[i]),
    decreases n,
{
    let rest = constraints(lessons, (n - 1) as nat);
    let now = constraints(lessons, n);
    if i < n - 1 {
        lemma_constraints_kept(lessons, (n - 1) as nat, i);
        let k = choose|k: int| 0 <= k < rest.len() && rest[k] == lessons[i];
        assert(now[k] == lessons[i]);
    } else {
        assert(now[rest.len() as int] == lessons[i]);
    }
}

proof fn lemma_ranked_contains(lessons: Seq<LessonView>, n: nat, i: int)
    requires
        n <= lessons.len(),
        0 <= i < n,
    ensures
        ranked(lessons, n).contains(lessons[i]),
    decreases n,
{
    lemma_ranked_len(lessons, (n - 1) as nat);
    let rest = ranked(lessons, (n - 1) as nat);
    let at = rank_of(rest, lessons[n - 1]) as int;
    let now = ranked(lessons, n);
    lemma_rank_of(rest, lessons[n - 1]);
    if i < n - 1 {
        lemma_ranked_contains(lessons, (n - 1) as nat, i);
        let k = choose|k: int| 0 <= k < rest.len() && rest[k] == lessons[i];
        if k < at {
            assert(now[k] == lessons[i]);
        } else {
            assert(now[k + 1] == lessons[i]);
        }
    } else {
        assert(now[at] == lessons[i]);
    }
}

proof fn lemma_of_kind_all(lessons: Seq<LessonView>, n: nat)
    requires
        n <= lessons.len(),
    ensures
        of_kind(lessons, None, n) =~= lessons.take(n as int),
    decreases n,
{
    if n > 0 {
        lemma_of_kind_all(lessons, (n - 1) as nat);
    }
}

/// No cap drops a constraint.
pub proof fn constraints_always_load(lessons: Seq<LessonView>, k: nat, i: int)
    requires
        0 <= i < lessons.len(),
        lessons[i].kind == LessonKind::Constraint,
    ensures
        retrieved(lessons, None, k).contains(lessons[i]),
{
    lemma_of_kind_all(lessons, lessons.len());
    assert(lessons.take(lessons.len() as int) =~= lessons);
    let order = ranked(lessons, lessons.len());
    lemma_ranked_contains(lessons, lessons.len(), i);
    let at = choose|at: int| 0 <= at < order.len() && order[at] == lessons[i];
    lemma_constraints_kept(order, order.len(), at);
    let head = constraints(order, order.len());
    let h = choose|h: int| 0 <= h < head.len() && head[h] == lessons[i];
    assert(retrieved(lessons, None, k)[h] == lessons[i]);
}

/// At most `k` lessons besides the constraints are shown.
pub proof fn other_lessons_are_capped(
    lessons: Seq<LessonView>,
    kind: Option<LessonKind>,
    k: nat,
)
    ensures
        ({
            let pool = of_kind(lessons, kind, lessons.len());
            let order = ranked(pool, pool.len());
            retrieved(lessons, kind, k).len() <= constraints(order, order.len()).len() + k
        }),
{
}

proof fn lemma_text_irreflexive(a: Seq<char>, b: Seq<char>)
    ensures
        !(text_below(a, b) && text_below(b, a)),
    decreases a.len(),
{
    if a.len() > 0 && b.len() > 0 && a[0] == b[0] {
        lemma_text_irreflexive(a.drop_first(), b.drop_first());
    }
}

proof fn lemma_text_transitive(a: Seq<char>, b: Seq<char>, c: Seq<char>)
    ensures
        !text_below(b, a) && !text_below(c, b) ==> !text_below(c, a),
    decreases a.len(),
{
    if a.len() > 0 && b.len() > 0 && c.len() > 0 {
        if a[0] == b[0] && b[0] == c[0] {
            lemma_text_transitive(a.drop_first(), b.drop_first(), c.drop_first());
        } else if !text_below(b, a) && !text_below(c, b) {
            assert(a[0] <= b[0] && b[0] <= c[0]);
        }
    } else if a.len() > 0 && b.len() == 0 {
        assert(text_below(b, a));
    } else if b.len() > 0 && c.len() == 0 {
        assert(text_below(c, b));
    }
}

/// The order is transitive and no two lessons precede each other.
proof fn lemma_listing_order(a: LessonView, b: LessonView, c: LessonView)
    ensures
        !listed_before(b, a) && !listed_before(c, b) ==> !listed_before(c, a),
        !(listed_before(a, b) && listed_before(b, a)),
{
    rates_are_ordered(a.applied, a.helped, b.applied, b.helped, c.applied, c.helped);
    rates_are_ordered(c.applied, c.helped, b.applied, b.helped, a.applied, a.helped);
    rates_are_ordered(b.applied, b.helped, a.applied, a.helped, c.applied, c.helped);
    rates_are_ordered(b.applied, b.helped, c.applied, c.helped, a.applied, a.helped);
    rates_are_ordered(a.applied, a.helped, c.applied, c.helped, b.applied, b.helped);
    rates_are_ordered(c.applied, c.helped, a.applied, a.helped, b.applied, b.helped);
    lemma_text_irreflexive(a.id, b.id);
    lemma_text_transitive(a.id, b.id, c.id);
}

/// No lesson in the list should have come before one listed earlier.
pub open spec fn in_order(lessons: Seq<LessonView>) -> bool {
    forall|i: int, j: int|
        0 <= i < j < lessons.len() ==> !listed_before(
            #[trigger] lessons[j],
            #[trigger] lessons[i],
        )
}

proof fn lemma_rank_splits(order: Seq<LessonView>, lesson: LessonView)
    requires
        in_order(order),
    ensures
        forall|i: int|
            0 <= i < rank_of(order, lesson) ==> !listed_before(lesson, #[trigger] order[i]),
        forall|i: int|
            rank_of(order, lesson) <= i < order.len() ==> listed_before(
                lesson,
                #[trigger] order[i],
            ),
    decreases order.len(),
{
    if order.len() > 0 {
        if listed_before(lesson, order.last()) {
            let shorter = order.drop_last();
            assert forall|i: int, j: int| 0 <= i < j < shorter.len() implies !listed_before(
                #[trigger] shorter[j],
                #[trigger] shorter[i],
            ) by {
                assert(shorter[i] == order[i] && shorter[j] == order[j]);
            }
            lemma_rank_splits(shorter, lesson);
            lemma_rank_of(shorter, lesson);
            assert forall|i: int| 0 <= i < rank_of(order, lesson) implies !listed_before(
                lesson,
                #[trigger] order[i],
            ) by {
                assert(order[i] == shorter[i]);
            }
            assert forall|i: int| rank_of(order, lesson) <= i < order.len() implies listed_before(
                lesson,
                #[trigger] order[i],
            ) by {
                if i < shorter.len() {
                    assert(order[i] == shorter[i]);
                }
            }
        } else {
            assert forall|i: int| 0 <= i < order.len() implies !listed_before(
                lesson,
                #[trigger] order[i],
            ) by {
                if i < order.len() - 1 {
                    lemma_listing_order(order[i], order.last(), lesson);
                }
            }
        }
    }
}

/// The lessons come best first: by help rate, and by id where rates are equal.
pub proof fn lessons_come_best_first(lessons: Seq<LessonView>, n: nat)
    requires
        n <= lessons.len(),
    ensures
        in_order(ranked(lessons, n)),
    decreases n,
{
    if n > 0 {
        lessons_come_best_first(lessons, (n - 1) as nat);
        let rest = ranked(lessons, (n - 1) as nat);
        let lesson = lessons[n - 1];
        let at = rank_of(rest, lesson) as int;
        let now = ranked(lessons, n);
        lemma_rank_of(rest, lesson);
        lemma_rank_splits(rest, lesson);
        assert(now == rest.insert(at, lesson));
        assert forall|i: int, j: int| 0 <= i < j < now.len() implies !listed_before(
            #[trigger] now[j],
            #[trigger] now[i],
        ) by {
            if i == at {
                assert(now[j] == rest[j - 1]);
                lemma_listing_order(lesson, rest[j - 1], lesson);
            } else if j == at {
                assert(now[i] == rest[i]);
            } else {
                let a = if i < at {
                    i
                } else {
                    i - 1
                };
                let b = if j < at {
                    j
                } else {
                    j - 1
                };
                assert(now[i] == rest[a]);
                assert(now[j] == rest[b]);
            }
        }
    }
}

/// No two lessons share an id.
pub open spec fn ids_once(lessons: Seq<LessonView>) -> bool {
    forall|i: int, j: int|
        0 <= i < j < lessons.len() ==> (#[trigger] lessons[i]).id != (#[trigger] lessons[j]).id
}

/// Both hold the same lessons.
pub open spec fn same_lessons(a: Seq<LessonView>, b: Seq<LessonView>) -> bool {
    forall|lesson: LessonView| #[trigger] a.contains(lesson) <==> b.contains(lesson)
}

proof fn lemma_text_total(a: Seq<char>, b: Seq<char>)
    ensures
        a != b ==> text_below(a, b) || text_below(b, a),
    decreases a.len(),
{
    if a.len() > 0 && b.len() > 0 && a[0] == b[0] {
        lemma_text_total(a.drop_first(), b.drop_first());
        if a.drop_first() == b.drop_first() {
            assert(a =~= seq![a[0]] + a.drop_first());
            assert(b =~= seq![b[0]] + b.drop_first());
        }
    } else if a.len() == 0 && b.len() == 0 {
        assert(a =~= b);
    }
}

proof fn lemma_drop_last_members(lessons: Seq<LessonView>, lesson: LessonView)
    requires
        lessons.len() > 0,
        ids_once(lessons),
    ensures
        lessons.drop_last().contains(lesson) <==> lessons.contains(lesson) && lesson
            != lessons.last(),
        ids_once(lessons.drop_last()),
{
    let shorter = lessons.drop_last();
    if shorter.contains(lesson) {
        let k = choose|k: int| 0 <= k < shorter.len() && shorter[k] == lesson;
        assert(lessons[k] == lesson);
        assert(lessons[k].id != lessons[lessons.len() - 1].id);
    }
    if lessons.contains(lesson) && lesson != lessons.last() {
        let k = choose|k: int| 0 <= k < lessons.len() && lessons[k] == lesson;
        assert(shorter[k] == lesson);
    }
    assert forall|i: int, j: int| 0 <= i < j < shorter.len() implies (#[trigger] shorter[i]).id != (
    #[trigger] shorter[j]).id by {
        assert(shorter[i] == lessons[i] && shorter[j] == lessons[j]);
    }
}

proof fn lemma_drop_last_ordered(lessons: Seq<LessonView>)
    requires
        lessons.len() > 0,
        in_order(lessons),
    ensures
        in_order(lessons.drop_last()),
{
    let shorter = lessons.drop_last();
    assert forall|i: int, j: int| 0 <= i < j < shorter.len() implies !listed_before(
        #[trigger] shorter[j],
        #[trigger] shorter[i],
    ) by {
        assert(shorter[i] == lessons[i] && shorter[j] == lessons[j]);
    }
}

/// There is one order in which lessons with ids of their own can be listed.
proof fn lemma_one_order(a: Seq<LessonView>, b: Seq<LessonView>)
    requires
        ids_once(a),
        ids_once(b),
        in_order(a),
        in_order(b),
        same_lessons(a, b),
    ensures
        a == b,
    decreases a.len(),
{
    if a.len() == 0 {
        if b.len() > 0 {
            assert(b.contains(b[0]));
            assert(a.contains(b[0]));
        }
        assert(a =~= b);
    } else {
        let x = a.last();
        assert(a.contains(x));
        assert(b.contains(x));
        let y = b.last();
        assert(b.contains(y));
        assert(a.contains(y));
        if x != y {
            let k = choose|k: int| 0 <= k < b.len() && b[k] == x;
            let m = choose|m: int| 0 <= m < a.len() && a[m] == y;
            assert(!listed_before(b[b.len() - 1], b[k]));
            assert(!listed_before(a[a.len() - 1], a[m]));
            assert(b[k].id != b[b.len() - 1].id);
            lemma_text_total(x.id, y.id);
        }
        let shorter_a = a.drop_last();
        let shorter_b = b.drop_last();
        lemma_drop_last_members(a, x);
        lemma_drop_last_members(b, x);
        lemma_drop_last_ordered(a);
        lemma_drop_last_ordered(b);
        assert forall|lesson: LessonView| #[trigger]
            shorter_a.contains(lesson) <==> shorter_b.contains(lesson) by {
            lemma_drop_last_members(a, lesson);
            lemma_drop_last_members(b, lesson);
            assert(a.contains(lesson) <==> b.contains(lesson));
        }
        lemma_one_order(shorter_a, shorter_b);
        assert(a =~= shorter_a.push(x));
        assert(b =~= shorter_b.push(y));
    }
}

proof fn lemma_of_kind(lessons: Seq<LessonView>, kind: Option<LessonKind>, n: nat)
    requires
        ids_once(lessons),
        n <= lessons.len(),
    ensures
        ids_once(of_kind(lessons, kind, n)),
        forall|lesson: LessonView| #[trigger]
            of_kind(lessons, kind, n).contains(lesson) <==> lessons.take(n as int).contains(lesson)
                && (kind is None || kind == Some(lesson.kind)),
    decreases n,
{
    let pool = of_kind(lessons, kind, n);
    if n > 0 {
        lemma_of_kind(lessons, kind, (n - 1) as nat);
        let rest = of_kind(lessons, kind, (n - 1) as nat);
        let last = lessons[n - 1];
        assert forall|lesson: LessonView|
            lessons.take(n as int).contains(lesson) <==> lesson == last || #[trigger] lessons.take(
                n - 1,
            ).contains(lesson) by {
            let now = lessons.take(n as int);
            let before = lessons.take(n - 1);
            if now.contains(lesson) && lesson != last {
                let k = choose|k: int| 0 <= k < now.len() && now[k] == lesson;
                assert(before[k] == lesson);
            }
            if before.contains(lesson) {
                let k = choose|k: int| 0 <= k < before.len() && before[k] == lesson;
                assert(now[k] == lesson);
            }
            assert(now[n - 1] == last);
        }
        if kind is None || kind == Some(last.kind) {
            assert forall|i: int, j: int| 0 <= i < j < pool.len() implies (#[trigger] pool[i]).id
                != (#[trigger] pool[j]).id by {
                assert(pool[i] == rest[i]);
                if j < rest.len() {
                    assert(pool[j] == rest[j]);
                } else {
                    assert(rest.contains(rest[i]));
                    let before = lessons.take(n - 1);
                    assert(before.contains(rest[i]));
                    let k = choose|k: int| 0 <= k < before.len() && before[k] == rest[i];
                    assert(lessons[k].id != lessons[n - 1].id);
                }
            }
            assert forall|lesson: LessonView| #[trigger] pool.contains(lesson) <==> lesson == last
                || rest.contains(lesson) by {
                if rest.contains(lesson) {
                    let k = choose|k: int| 0 <= k < rest.len() && rest[k] == lesson;
                    assert(pool[k] == lesson);
                }
                if pool.contains(lesson) && lesson != last {
                    let k = choose|k: int| 0 <= k < pool.len() && pool[k] == lesson;
                    assert(rest[k] == lesson);
                }
                assert(pool[rest.len() as int] == last);
            }
            assert forall|lesson: LessonView| #[trigger]
                pool.contains(lesson) <==> lessons.take(n as int).contains(lesson) && (kind is None
                || kind == Some(lesson.kind)) by {
                assert(rest.contains(lesson) <==> lessons.take(n - 1).contains(lesson) && (
                kind is None || kind == Some(lesson.kind)));
            }
        } else {
            assert forall|lesson: LessonView| #[trigger]
                pool.contains(lesson) <==> lessons.take(n as int).contains(lesson) && (kind is None
                || kind == Some(lesson.kind)) by {
                assert(lessons.take(n - 1).contains(lesson) ==> lessons.take(n as int).contains(
                    lesson,
                ));
            }
        }
    }
}

proof fn lemma_ranked_members(lessons: Seq<LessonView>, n: nat)
    requires
        ids_once(lessons),
        n <= lessons.len(),
    ensures
        ids_once(ranked(lessons, n)),
        forall|lesson: LessonView| #[trigger]
            ranked(lessons, n).contains(lesson) <==> lessons.take(n as int).contains(lesson),
    decreases n,
{
    if n > 0 {
        lemma_ranked_members(lessons, (n - 1) as nat);
        let rest = ranked(lessons, (n - 1) as nat);
        let last = lessons[n - 1];
        let at = rank_of(rest, last) as int;
        lemma_rank_of(rest, last);
        let now = ranked(lessons, n);
        assert(now == rest.insert(at, last));
        assert forall|lesson: LessonView| #[trigger] now.contains(lesson) <==> lesson == last
            || rest.contains(lesson) by {
            if rest.contains(lesson) {
                let k = choose|k: int| 0 <= k < rest.len() && rest[k] == lesson;
                if k < at {
                    assert(now[k] == lesson);
                } else {
                    assert(now[k + 1] == lesson);
                }
            }
            if now.contains(lesson) && lesson != last {
                let k = choose|k: int| 0 <= k < now.len() && now[k] == lesson;
                if k < at {
                    assert(rest[k] == lesson);
                } else {
                    assert(rest[k - 1] == lesson);
                }
            }
            assert(now[at] == last);
        }
        assert forall|lesson: LessonView| #[trigger]
            lessons.take(n as int).contains(lesson) <==> lesson == last || lessons.take(
                n - 1,
            ).contains(lesson) by {
            let upto = lessons.take(n as int);
            let before = lessons.take(n - 1);
            if upto.contains(lesson) && lesson != last {
                let k = choose|k: int| 0 <= k < upto.len() && upto[k] == lesson;
                assert(before[k] == lesson);
            }
            if before.contains(lesson) {
                let k = choose|k: int| 0 <= k < before.len() && before[k] == lesson;
                assert(upto[k] == lesson);
            }
            assert(upto[n - 1] == last);
        }
        assert forall|k: int| 0 <= k < rest.len() implies (#[trigger] rest[k]).id != last.id by {
            assert(rest.contains(rest[k]));
            let before = lessons.take(n - 1);
            assert(before.contains(rest[k]));
            let m = choose|m: int| 0 <= m < before.len() && before[m] == rest[k];
            assert(lessons[m].id != lessons[n - 1].id);
        }
        assert forall|i: int, j: int| 0 <= i < j < now.len() implies (#[trigger] now[i]).id != (
        #[trigger] now[j]).id by {
            let a = if i < at {
                i
            } else {
                i - 1
            };
            let b = if j < at {
                j
            } else {
                j - 1
            };
            if i == at {
                assert(now[j] == rest[b]);
            } else if j == at {
                assert(now[i] == rest[a]);
            } else {
                assert(now[i] == rest[a] && now[j] == rest[b]);
            }
        }
    }
}

/// What is recalled does not depend on the order in which the lessons come, as
/// long as each has an id of its own.
pub proof fn recall_ignores_order(
    a: Seq<LessonView>,
    b: Seq<LessonView>,
    kind: Option<LessonKind>,
    k: nat,
)
    requires
        ids_once(a),
        ids_once(b),
        same_lessons(a, b),
    ensures
        retrieved(a, kind, k) == retrieved(b, kind, k),
{
    let x = of_kind(a, kind, a.len());
    let y = of_kind(b, kind, b.len());
    assert(a.take(a.len() as int) =~= a);
    assert(b.take(b.len() as int) =~= b);
    assert(x.take(x.len() as int) =~= x);
    assert(y.take(y.len() as int) =~= y);
    lemma_of_kind(a, kind, a.len());
    lemma_of_kind(b, kind, b.len());
    lemma_ranked_members(x, x.len());
    lemma_ranked_members(y, y.len());
    lessons_come_best_first(x, x.len());
    lessons_come_best_first(y, y.len());
    let first = ranked(x, x.len());
    let second = ranked(y, y.len());
    assert forall|lesson: LessonView| #[trigger] first.contains(lesson) <==> second.contains(
        lesson,
    ) by {
        assert(x.contains(lesson) <==> y.contains(lesson)) by {
            assert(a.contains(lesson) <==> b.contains(lesson));
        }
    }
    lemma_one_order(first, second);
}

/// One lesson as a prompt shows it.
pub open spec fn lesson_line(lesson: LessonView) -> Seq<char> {
    let mechanism = if lesson.mechanism.len() == 0 {
        Seq::empty()
    } else {
        " ("@ + lesson.mechanism + ")"@
    };
    let record = if lesson.applied == 0 {
        "not yet applied"@
    } else {
        "applied "@ + decimal(lesson.applied as nat) + "×, helped "@ + decimal(
            lesson.helped as nat,
        ) + "×"@
    };
    "- when "@ + lesson.trigger + ": "@ + lesson.claim + mechanism + " ["@ + record + "]"@
}

pub open spec fn lesson_lines(lessons: Seq<LessonView>) -> Seq<Seq<char>> {
    Seq::new(lessons.len(), |i: int| lesson_line(lessons[i]))
}

/// What generalised out of other episodes, for a prompt.
pub open spec fn lessons_text(lessons: Seq<LessonView>) -> Seq<char> {
    if lessons.len() == 0 {
        Seq::empty()
    } else {
        "\n\n# Learned from earlier episodes\n"@ + joined_text(lesson_lines(lessons), "\n"@)
    }
}

fn render_lesson(lesson: &Lesson) -> (r: String)
    ensures
        r@ == lesson_line(lesson@),
{
    let mut line = "- when ".to_owned();
    line.append(lesson.trigger.as_str());
    line.append(": ");
    line.append(lesson.claim.as_str());
    let mut mechanism = String::new();
    if !lesson.mechanism.as_str().is_empty() {
        mechanism = " (".to_owned();
        mechanism.append(lesson.mechanism.as_str());
        mechanism.append(")");
    }
    line.append(mechanism.as_str());
    line.append(" [");
    let record = if lesson.applied == 0 {
        "not yet applied".to_owned()
    } else {
        let mut text = "applied ".to_owned();
        text.append(decimal_text(lesson.applied as u64).as_str());
        text.append("×, helped ");
        text.append(decimal_text(lesson.helped as u64).as_str());
        text.append("×");
        text
    };
    line.append(record.as_str());
    line.append("]");
    line
}

/// What generalised out of other episodes, for a prompt. Empty when nothing
/// has.
pub fn render_lessons(lessons: &[Lesson]) -> (r: String)
    ensures
        r@ == lessons_text(views(lessons@)),
{
    if lessons.len() == 0 {
        return String::new();
    }
    let ghost all = views(lessons@);
    let mut lines: Vec<String> = Vec::new();
    let mut i: usize = 0;
    while i < lessons.len()
        invariant
            i <= lessons@.len(),
            all == views(lessons@),
            lines@.len() == i,
            forall|k: int| 0 <= k < i ==> (#[trigger] lines@[k])@ == lesson_line(all[k]),
        decreases lessons@.len() - i,
    {
        assert(all[i as int] == lessons@[i as int]@);
        lines.push(render_lesson(&lessons[i]));
        i = i + 1;
    }
    assert(views(lines@) =~= lesson_lines(all));
    let mut text = "\n\n# Learned from earlier episodes\n".to_owned();
    text.append(join(&lines, "\n").as_str());
    text
}

/// One attempt as a prompt shows it.
pub open spec fn row_line(row: RowView) -> Seq<char> {
    let because = if row.cause.len() == 0 {
        Seq::empty()
    } else {
        "\n  still missing: "@ + row.cause
    };
    decimal(row.attempt as nat) + ". ["@ + row.approach_sig + "] "@ + row.approach_desc + " → "@
        + row.outcome + because
}

pub open spec fn row_lines(rows: Seq<RowView>) -> Seq<Seq<char>> {
    Seq::new(rows.len(), |i: int| row_line(rows[i]))
}

/// What an episode has already spent, for a prompt.
pub open spec fn history_text(rows: Seq<RowView>) -> Seq<char> {
    if rows.len() == 0 {
        Seq::empty()
    } else {
        "\n\n# Already tried this episode — do not propose any of these again\n"@ + joined_text(
            row_lines(rows),
            "\n"@,
        )
    }
}

fn render_row(row: &LedgerRow) -> (r: String)
    ensures
        r@ == row_line(row@),
{
    let mut line = decimal_text(row.attempt as u64);
    line.append(". [");
    line.append(row.approach_sig.as_str());
    line.append("] ");
    line.append(row.approach_desc.as_str());
    line.append(" → ");
    line.append(row.outcome.as_str());
    let mut because = String::new();
    if !row.cause.as_str().is_empty() {
        because = "\n  still missing: ".to_owned();
        because.append(row.cause.as_str());
    }
    line.append(because.as_str());
    line
}

/// What this episode has already spent, for a prompt. Empty on attempt one.
pub fn render_history(rows: &[LedgerRow]) -> (r: String)
    ensures
        r@ == history_text(views(rows@)),
{
    if rows.len() == 0 {
        return String::new();
    }
    let ghost all = views(rows@);
    let mut lines: Vec<String> = Vec::new();
    let mut i: usize = 0;
    while i < rows.len()
        invariant
            i <= rows@.len(),
            all == views(rows@),
            lines@.len() == i,
            forall|k: int| 0 <= k < i ==> (#[trigger] lines@[k])@ == row_line(all[k]),
        decreases rows@.len() - i,
    {
        assert(all[i as int] == rows@[i as int]@);
        lines.push(render_row(&rows[i]));
        i = i + 1;
    }
    assert(views(lines@) =~= row_lines(all));
    let mut text =
        "\n\n# Already tried this episode — do not propose any of these again\n".to_owned();
    text.append(join(&lines, "\n").as_str());
    text
}

} // verus!
