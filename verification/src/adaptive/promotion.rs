//! Which member of a repaired family the catalogue offers.
//!
//! A member is proven once it has [`MIN_TRIALS`] runs behind it. Among the
//! proven, the champion has the best help rate, ties broken by more trials.
//! While nothing is proven, the root holds the position.
use vstd::prelude::*;

use crate::adaptive::ledger::Score;
use crate::text::same;

verus! {

/// Runs before a member's score is treated as evidence.
pub const MIN_TRIALS: u32 = 3;

/// Where one member of a family stands.
#[derive(Debug, Clone, Copy, PartialEq, Eq, Structural)]
pub enum Standing {
    /// Not enough runs to say.
    Unproven,
    /// Proven, and the best of the family.
    Champion,
    /// Proven, and something else in the family is better.
    Beaten,
}

/// The share of runs that helped, as a fraction: nothing where none was made.
pub open spec fn rate_top(applied: u32, helped: u32) -> nat {
    if applied == 0 {
        0
    } else {
        helped as nat
    }
}

pub open spec fn rate_bottom(applied: u32) -> nat {
    if applied == 0 {
        1
    } else {
        applied as nat
    }
}

/// The first help rate is lower than the second.
pub open spec fn rate_below(applied: u32, helped: u32, than_applied: u32, than_helped: u32) -> bool {
    rate_top(applied, helped) * rate_bottom(than_applied) < rate_top(than_applied, than_helped)
        * rate_bottom(applied)
}

/// The first score is lower evidence than the second: a lower help rate, or
/// the same rate over fewer runs.
pub open spec fn score_below(a: Score, b: Score) -> bool {
    ||| rate_below(a.applied, a.helped, b.applied, b.helped)
    ||| !rate_below(b.applied, b.helped, a.applied, a.helped) && a.applied < b.applied
}

proof fn lemma_rate_transitive(ta: int, ba: int, tb: int, bb: int, tc: int, bc: int)
    by (nonlinear_arith)
    requires
        0 <= ta,
        0 <= tb,
        0 <= tc,
        0 < ba,
        0 < bb,
        0 < bc,
        ta * bb <= tb * ba,
        tb * bc <= tc * bb,
    ensures
        ta * bc <= tc * ba,
{
    assert((ta * bb) * bc <= (tb * ba) * bc);
    assert((tb * bc) * ba <= (tc * bb) * ba);
    assert((ta * bc) * bb <= (tc * ba) * bb);
}

proof fn lemma_rate_strict(ta: int, ba: int, tb: int, bb: int, tc: int, bc: int)
    by (nonlinear_arith)
    requires
        0 <= ta,
        0 <= tb,
        0 <= tc,
        0 < ba,
        0 < bb,
        0 < bc,
        ta * bb <= tb * ba,
        tb * bc <= tc * bb,
        ta * bb < tb * ba || tb * bc < tc * bb,
    ensures
        ta * bc < tc * ba,
{
    assert((ta * bb) * bc <= (tb * ba) * bc);
    assert((tb * bc) * ba <= (tc * bb) * ba);
    assert(ta * bb < tb * ba ==> (ta * bb) * bc < (tb * ba) * bc);
    assert(tb * bc < tc * bb ==> (tb * bc) * ba < (tc * bb) * ba);
    assert((ta * bc) * bb < (tc * ba) * bb);
}

/// Help rates are ordered: what is not below and not below again is not below.
pub proof fn rates_are_ordered(aa: u32, ah: u32, ba: u32, bh: u32, ca: u32, ch: u32)
    ensures
        !rate_below(ba, bh, aa, ah) && !rate_below(ca, ch, ba, bh) ==> !rate_below(ca, ch, aa, ah),
        rate_below(aa, ah, ba, bh) && !rate_below(ca, ch, ba, bh) ==> rate_below(aa, ah, ca, ch),
        !rate_below(ba, bh, aa, ah) && rate_below(ba, bh, ca, ch) ==> rate_below(aa, ah, ca, ch),
{
    let ta = rate_top(aa, ah) as int;
    let tb = rate_top(ba, bh) as int;
    let tc = rate_top(ca, ch) as int;
    let da = rate_bottom(aa) as int;
    let db = rate_bottom(ba) as int;
    let dc = rate_bottom(ca) as int;
    if ta * db <= tb * da && tb * dc <= tc * db {
        lemma_rate_transitive(ta, da, tb, db, tc, dc);
        if ta * db < tb * da || tb * dc < tc * db {
            lemma_rate_strict(ta, da, tb, db, tc, dc);
        }
    }
}

proof fn lemma_scores_ordered(a: Score, b: Score, c: Score)
    ensures
        !score_below(b, a) && !score_below(c, b) ==> !score_below(c, a),
        score_below(a, b) && !score_below(c, b) ==> score_below(a, c),
        !score_below(b, a) && score_below(b, c) ==> score_below(a, c),
        !(score_below(a, b) && score_below(b, a)),
{
    rates_are_ordered(a.applied, a.helped, b.applied, b.helped, c.applied, c.helped);
    rates_are_ordered(c.applied, c.helped, b.applied, b.helped, a.applied, a.helped);
    rates_are_ordered(b.applied, b.helped, a.applied, a.helped, c.applied, c.helped);
    rates_are_ordered(b.applied, b.helped, c.applied, c.helped, a.applied, a.helped);
    rates_are_ordered(a.applied, a.helped, c.applied, c.helped, b.applied, b.helped);
    rates_are_ordered(c.applied, c.helped, a.applied, a.helped, b.applied, b.helped);
}

/// Whether the first help rate is lower than the second.
pub fn rate_is_below(applied: u32, helped: u32, than_applied: u32, than_helped: u32) -> (r: bool)
    ensures
        r == rate_below(applied, helped, than_applied, than_helped),
{
    let ta: u64 = if applied == 0 {
        0
    } else {
        helped as u64
    };
    let da: u64 = if applied == 0 {
        1
    } else {
        applied as u64
    };
    let tb: u64 = if than_applied == 0 {
        0
    } else {
        than_helped as u64
    };
    let db: u64 = if than_applied == 0 {
        1
    } else {
        than_applied as u64
    };
    assert(ta * db <= 0xffff_ffff * 0xffff_ffff) by (nonlinear_arith)
        requires
            ta <= 0xffff_ffff,
            db <= 0xffff_ffff,
    ;
    assert(tb * da <= 0xffff_ffff * 0xffff_ffff) by (nonlinear_arith)
        requires
            tb <= 0xffff_ffff,
            da <= 0xffff_ffff,
    ;
    ta * db < tb * da
}

fn score_is_below(a: Score, b: Score) -> (r: bool)
    ensures
        r == score_below(a, b),
{
    rate_is_below(a.applied, a.helped, b.applied, b.helped) || (!rate_is_below(
        b.applied,
        b.helped,
        a.applied,
        a.helped,
    ) && a.applied < b.applied)
}

/// A family: each member's id and score, root first.
pub open spec fn family_view(family: Seq<(String, Score)>) -> Seq<(Seq<char>, Score)> {
    Seq::new(family.len(), |i: int| (family[i].0@, family[i].1))
}

pub open spec fn proven(member: (Seq<char>, Score)) -> bool {
    member.1.applied >= MIN_TRIALS
}

/// Member `c` is the one to offer: the best of the proven, and the last of
/// those that are equally good; or the root, where none is proven.
pub open spec fn is_champion(family: Seq<(Seq<char>, Score)>, c: int) -> bool {
    &&& 0 <= c < family.len()
    &&& if exists|i: int| 0 <= i < family.len() && proven(#[trigger] family[i]) {
        &&& proven(family[c])
        &&& forall|i: int|
            0 <= i < family.len() && proven(#[trigger] family[i]) ==> !score_below(
                family[c].1,
                family[i].1,
            )
        &&& forall|i: int|
            c < i < family.len() && proven(#[trigger] family[i]) ==> score_below(
                family[i].1,
                family[c].1,
            )
    } else {
        c == 0
    }
}

/// The position of the member to offer.
pub fn champion_index(family: &[(String, Score)]) -> (r: Option<usize>)
    ensures
        match r {
            Some(c) => is_champion(family_view(family@), c as int),
            None => family@.len() == 0,
        },
{
    let ghost members = family_view(family@);
    let mut best: Option<usize> = None;
    let mut i: usize = 0;
    while i < family.len()
        invariant
            i <= family@.len(),
            members == family_view(family@),
            match best {
                Some(c) => {
                    &&& c < i
                    &&& proven(members[c as int])
                    &&& forall|k: int|
                        0 <= k < i && proven(#[trigger] members[k]) ==> !score_below(
                            members[c as int].1,
                            members[k].1,
                        )
                    &&& forall|k: int|
                        c < k < i && proven(#[trigger] members[k]) ==> score_below(
                            members[k].1,
                            members[c as int].1,
                        )
                },
                None => forall|k: int| 0 <= k < i ==> !proven(#[trigger] members[k]),
            },
        decreases family@.len() - i,
    {
        assert(members[i as int] == (family@[i as int].0@, family@[i as int].1));
        if family[i].1.applied >= MIN_TRIALS {
            match best {
                Some(c) => {
                    let lower = score_is_below(family[i].1, family[c].1);
                    proof {
                        assert(members[c as int].1 == family@[c as int].1);
                        lemma_scores_ordered(
                            members[i as int].1,
                            members[c as int].1,
                            members[i as int].1,
                        );
                        if !lower {
                            assert forall|k: int| 0 <= k <= i && proven(
                                #[trigger] members[k],
                            ) implies !score_below(members[i as int].1, members[k].1) by {
                                if k < i {
                                    lemma_scores_ordered(
                                        members[k].1,
                                        members[c as int].1,
                                        members[i as int].1,
                                    );
                                }
                            }
                        } else {
                            lemma_scores_ordered(
                                members[c as int].1,
                                members[i as int].1,
                                members[c as int].1,
                            );
                        }
                    }
                    if !lower {
                        best = Some(i);
                    }
                },
                None => {
                    proof {
                        lemma_scores_ordered(
                            members[i as int].1,
                            members[i as int].1,
                            members[i as int].1,
                        );
                    }
                    best = Some(i);
                },
            }
        }
        i = i + 1;
    }
    match best {
        Some(c) => {
            assert(proven(members[c as int]));
            Some(c)
        },
        None => {
            if family.len() == 0 {
                None
            } else {
                Some(0)
            }
        },
    }
}

/// Picks the member to offer. The family is in lineage order, root first;
/// only an empty family has none.
pub fn champion(family: &[(String, Score)]) -> (r: Option<&str>)
    ensures
        match r {
            Some(id) => exists|c: int| #[trigger]
                is_champion(family_view(family@), c) && family_view(family@)[c].0 == id@,
            None => family@.len() == 0,
        },
{
    match champion_index(family) {
        Some(c) => {
            assert(is_champion(family_view(family@), c as int));
            Some(family[c].0.as_str())
        },
        None => None,
    }
}

/// Where the member called `id` stands within its family.
pub open spec fn standing_of(id: Seq<char>, family: Seq<(Seq<char>, Score)>) -> Standing {
    if exists|i: int| is_first_member(family, id, i) && proven(family[i]) {
        if exists|c: int| #[trigger] is_champion(family, c) && family[c].0 == id {
            Standing::Champion
        } else {
            Standing::Beaten
        }
    } else {
        Standing::Unproven
    }
}

/// `i` is the position of the first member called `id`.
pub open spec fn is_first_member(family: Seq<(Seq<char>, Score)>, id: Seq<char>, i: int) -> bool {
    &&& 0 <= i < family.len()
    &&& family[i].0 == id
    &&& forall|k: int| 0 <= k < i ==> (#[trigger] family[k]).0 != id
}

/// Where `id` stands within its family; one that is no member is unproven.
pub fn standing(id: &str, family: &[(String, Score)]) -> (r: Standing)
    ensures
        r == standing_of(id@, family_view(family@)),
{
    let ghost members = family_view(family@);
    let mut i: usize = 0;
    while i < family.len()
        invariant
            i <= family@.len(),
            members == family_view(family@),
            forall|k: int| 0 <= k < i ==> (#[trigger] members[k]).0 != id@,
        decreases family@.len() - i,
    {
        assert(members[i as int] == (family@[i as int].0@, family@[i as int].1));
        if same(family[i].0.as_str(), id) {
            assert(is_first_member(members, id@, i as int));
            if family[i].1.applied < MIN_TRIALS {
                assert forall|k: int| is_first_member(members, id@, k) implies !proven(
                    members[k],
                ) by {
                    if k < i {
                        assert(members[k].0 != id@);
                    }
                    if k > i {
                        assert(members[i as int].0 != id@);
                    }
                }
                return Standing::Unproven;
            }
            assert(is_first_member(members, id@, i as int) && proven(members[i as int]));
            match champion_index(family) {
                Some(c) => {
                    let best = same(family[c].0.as_str(), id);
                    assert(members[c as int].0 == family@[c as int].0@);
                    assert(is_champion(members, c as int));
                    proof {
                        assert forall|d: int| #[trigger] is_champion(members, d) implies d == c by {
                            champions_are_unique(members, c as int, d);
                        }
                    }
                    if best {
                        return Standing::Champion;
                    }
                    return Standing::Beaten;
                },
                None => {},
            }
        }
        i = i + 1;
    }
    Standing::Unproven
}

proof fn lemma_best_upto(family: Seq<(Seq<char>, Score)>, n: int) -> (c: int)
    requires
        0 <= n <= family.len(),
        exists|i: int| 0 <= i < n && proven(#[trigger] family[i]),
    ensures
        0 <= c < n,
        proven(family[c]),
        forall|i: int|
            0 <= i < n && proven(#[trigger] family[i]) ==> !score_below(family[c].1, family[i].1),
        forall|i: int|
            c < i < n && proven(#[trigger] family[i]) ==> score_below(family[i].1, family[c].1),
    decreases n,
{
    let last = n - 1;
    if !(exists|i: int| 0 <= i < last && proven(#[trigger] family[i])) {
        lemma_scores_ordered(family[last].1, family[last].1, family[last].1);
        last
    } else {
        let c = lemma_best_upto(family, last);
        if !proven(family[last]) {
            c
        } else if score_below(family[last].1, family[c].1) {
            lemma_scores_ordered(family[c].1, family[last].1, family[c].1);
            c
        } else {
            assert forall|i: int| 0 <= i < n && proven(#[trigger] family[i]) implies !score_below(
                family[last].1,
                family[i].1,
            ) by {
                lemma_scores_ordered(family[last].1, family[last].1, family[last].1);
                if i < last {
                    lemma_scores_ordered(family[i].1, family[c].1, family[last].1);
                }
            }
            last
        }
    }
}

/// A family with a member has a champion.
pub proof fn lemma_champion_among(family: Seq<(Seq<char>, Score)>)
    requires
        family.len() > 0,
    ensures
        exists|c: int| #[trigger] is_champion(family, c),
{
    if exists|i: int| 0 <= i < family.len() && proven(#[trigger] family[i]) {
        let c = lemma_best_upto(family, family.len() as int);
        assert(is_champion(family, c));
    } else {
        assert(is_champion(family, 0));
    }
}

/// A family has one champion at most.
pub proof fn champions_are_unique(family: Seq<(Seq<char>, Score)>, c: int, d: int)
    requires
        is_champion(family, c),
        is_champion(family, d),
    ensures
        c == d,
{
    if exists|i: int| 0 <= i < family.len() && proven(#[trigger] family[i]) {
        assert(proven(family[c]) && proven(family[d]));
        if c < d {
            assert(score_below(family[d].1, family[c].1));
            assert(!score_below(family[d].1, family[c].1));
        }
        if d < c {
            assert(score_below(family[c].1, family[d].1));
            assert(!score_below(family[c].1, family[d].1));
        }
    }
}

/// An unproven variant never displaces a proven member.
pub proof fn unproven_never_displaces_proven(family: Seq<(Seq<char>, Score)>, c: int, i: int)
    requires
        is_champion(family, c),
        0 <= i < family.len(),
        proven(family[i]),
    ensures
        proven(family[c]),
        !score_below(family[c].1, family[i].1),
{
}

} // verus!
