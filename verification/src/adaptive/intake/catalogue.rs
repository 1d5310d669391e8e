//! The stored workflows worth offering, with what is known about each.
//!
//! A planner is not shown what it must not choose: a workflow that is turned
//! off, one that this episode has already tried, or a draft, which is a
//! proposal and no procedure. And it is shown one row per family of repaired
//! workflows, because near-identical graphs are no choice.
use vstd::prelude::*;

use crate::adaptive::contracts::{selected_signature, signature_of_selected};
use crate::adaptive::intake::select::{Candidate, CandidateView};
use crate::adaptive::ledger::{among, Score};
use crate::adaptive::promotion::{
    champion_index, champions_are_unique, family_view, is_champion, lemma_champion_among, proven,
    score_below,
};
use crate::text::{same, views};

verus! {

/// What the store lists of a workflow.
#[derive(Debug, PartialEq, Eq)]
pub struct Summary {
    pub id: String,
    pub name: String,
    pub description: String,
    pub node_count: usize,
    pub enabled: bool,
    /// A proposal, run by whoever made it and chosen by no planner.
    pub draft: bool,
}

#[verifier::ext_equal]
pub struct SummaryView {
    pub id: Seq<char>,
    pub name: Seq<char>,
    pub description: Seq<char>,
    pub node_count: usize,
    pub enabled: bool,
    pub draft: bool,
}

impl View for Summary {
    type V = SummaryView;

    open spec fn view(&self) -> SummaryView {
        SummaryView {
            id: self.id@,
            name: self.name@,
            description: self.description@,
            node_count: self.node_count,
            enabled: self.enabled,
            draft: self.draft,
        }
    }
}

/// A workflow may be offered: it is turned on, no draft, and was not tried yet.
pub open spec fn may_offer(summary: SummaryView, tried: Seq<Seq<char>>) -> bool {
    summary.enabled && !summary.draft && !tried.contains(selected_signature(summary.id))
}

/// The row of a workflow with its score.
pub open spec fn candidate_of(summary: SummaryView, score: Score) -> CandidateView {
    CandidateView {
        id: summary.id,
        name: summary.name,
        description: summary.description,
        node_count: summary.node_count,
        applied: score.applied,
        helped: score.helped,
    }
}

/// The rows of the first `n` workflows that may be offered.
pub open spec fn candidates_of(
    listed: Seq<SummaryView>,
    scores: Seq<Score>,
    tried: Seq<Seq<char>>,
    n: nat,
) -> Seq<CandidateView>
    decreases n,
{
    if n == 0 {
        Seq::empty()
    } else {
        let rest = candidates_of(listed, scores, tried, (n - 1) as nat);
        if may_offer(listed[n - 1], tried) {
            rest.push(candidate_of(listed[n - 1], scores[n - 1]))
        } else {
            rest
        }
    }
}

/// The workflows a planner may be shown, each with its score. The scores are
/// those of the listed workflows, in order.
pub fn catalogue(listed: &[Summary], scores: &[Score], tried: &Vec<String>) -> (r: Vec<Candidate>)
    requires
        scores@.len() == listed@.len(),
    ensures
        views(r@) == candidates_of(views(listed@), scores@, views(tried@), listed@.len()),
{
    let ghost all = views(listed@);
    let ghost spent = views(tried@);
    let mut out: Vec<Candidate> = Vec::new();
    let mut i: usize = 0;
    assert(views(out@) =~= candidates_of(all, scores@, spent, 0));
    while i < listed.len()
        invariant
            i <= listed@.len(),
            scores@.len() == listed@.len(),
            all == views(listed@),
            spent == views(tried@),
            views(out@) == candidates_of(all, scores@, spent, i as nat),
        decreases listed@.len() - i,
    {
        assert(all[i as int] == listed@[i as int]@);
        let summary = &listed[i];
        let signature = signature_of_selected(summary.id.as_str());
        let ghost before = views(out@);
        if summary.enabled && !summary.draft && !among(tried, signature.as_str()) {
            let candidate = Candidate {
                id: summary.id.clone(),
                name: summary.name.clone(),
                description: summary.description.clone(),
                node_count: summary.node_count,
                applied: scores[i].applied,
                helped: scores[i].helped,
            };
            out.push(candidate);
            assert(views(out@) =~= before.push(candidate@));
        }
        i = i + 1;
    }
    out
}

/// The first candidate with the id.
pub open spec fn with_id(candidates: Seq<CandidateView>, id: Seq<char>) -> Option<CandidateView>
    decreases candidates.len(),
{
    if candidates.len() == 0 {
        None
    } else if candidates[0].id == id {
        Some(candidates[0])
    } else {
        with_id(candidates.drop_first(), id)
    }
}

fn find_id(candidates: &Vec<Candidate>, id: &str) -> (r: Option<usize>)
    ensures
        match r {
            Some(i) => i < candidates@.len() && with_id(views(candidates@), id@) == Some(
                candidates@[i as int]@,
            ),
            None => with_id(views(candidates@), id@) is None,
        },
{
    let ghost all = views(candidates@);
    let mut i: usize = 0;
    assert(all.skip(0) =~= all);
    while i < candidates.len()
        invariant
            i <= candidates@.len(),
            all == views(candidates@),
            with_id(all, id@) == with_id(all.skip(i as int), id@),
        decreases candidates@.len() - i,
    {
        assert(all.skip(i as int)[0] == candidates@[i as int]@);
        assert(all.skip(i as int).drop_first() =~= all.skip(i + 1));
        if same(candidates[i].id.as_str(), id) {
            return Some(i);
        }
        i = i + 1;
    }
    assert(all.skip(i as int) =~= Seq::empty());
    None
}

/// The ids of a family, root first.
pub open spec fn family_ids(family: Seq<(Seq<char>, Score)>) -> Seq<Seq<char>> {
    Seq::new(family.len(), |i: int| family[i].0)
}

/// A member of a family is a candidate.
pub open spec fn on_offer(candidates: Seq<CandidateView>, member: (Seq<char>, Score)) -> bool {
    with_id(candidates, member.0) is Some
}

/// The candidates among the first `n` members of a family, root first.
pub open spec fn offerable(
    candidates: Seq<CandidateView>,
    family: Seq<(Seq<char>, Score)>,
    n: nat,
) -> Seq<(Seq<char>, Score)>
    decreases n,
{
    if n == 0 {
        Seq::empty()
    } else {
        let rest = offerable(candidates, family, (n - 1) as nat);
        if on_offer(candidates, family[n - 1]) {
            rest.push(family[n - 1])
        } else {
            rest
        }
    }
}

/// The id of a family's champion.
pub open spec fn champion_of(family: Seq<(Seq<char>, Score)>) -> Seq<char> {
    family[choose|c: int| #[trigger] is_champion(family, c)].0
}

/// The member of a family to offer: the best of those that are candidates.
pub open spec fn offer_of(
    candidates: Seq<CandidateView>,
    family: Seq<(Seq<char>, Score)>,
    own: CandidateView,
) -> CandidateView {
    let open = offerable(candidates, family, family.len());
    if open.len() == 0 {
        own
    } else {
        match with_id(candidates, champion_of(open)) {
            Some(best) => best,
            None => own,
        }
    }
}

fn find_offerable(candidates: &Vec<Candidate>, family: &Vec<(String, Score)>) -> (r: Vec<
    (String, Score),
>)
    ensures
        family_view(r@) == offerable(
            views(candidates@),
            family_view(family@),
            family@.len(),
        ),
{
    let ghost line = family_view(family@);
    let ghost all = views(candidates@);
    let mut open: Vec<(String, Score)> = Vec::new();
    let mut k: usize = 0;
    assert(family_view(open@) =~= offerable(all, line, 0));
    while k < family.len()
        invariant
            k <= family@.len(),
            line == family_view(family@),
            all == views(candidates@),
            family_view(open@) == offerable(all, line, k as nat),
        decreases family@.len() - k,
    {
        let ghost before = family_view(open@);
        assert(line[k as int] == (family@[k as int].0@, family@[k as int].1));
        if find_id(candidates, family[k].0.as_str()).is_some() {
            open.push((family[k].0.clone(), family[k].1));
            assert(family_view(open@) =~= before.push(line[k as int]));
        }
        k = k + 1;
    }
    open
}

fn pick_offer(candidates: &Vec<Candidate>, family: &Vec<(String, Score)>, own: usize) -> (r: usize)
    requires
        own < candidates@.len(),
    ensures
        r < candidates@.len(),
        candidates@[r as int]@ == offer_of(
            views(candidates@),
            family_view(family@),
            candidates@[own as int]@,
        ),
{
    let members = find_offerable(candidates, family);
    let ghost open = family_view(members@);
    match champion_index(members.as_slice()) {
        Some(c) => {
            proof {
                let d = choose|d: int| #[trigger] is_champion(open, d);
                champions_are_unique(open, c as int, d);
                assert(open[c as int] == (members@[c as int].0@, members@[c as int].1));
            }
            match find_id(candidates, members[c].0.as_str()) {
                Some(i) => i,
                None => own,
            }
        },
        None => own,
    }
}

/// What has been decided about the candidates so far.
#[verifier::ext_equal]
pub struct Collapse {
    pub kept: Seq<CandidateView>,
    /// The ids nothing more is decided about.
    pub settled: Seq<Seq<char>>,
}

/// One more candidate decided about: one without a family is kept as it is,
/// and a family is kept by the member to offer.
pub open spec fn collapse_one(
    before: Collapse,
    candidates: Seq<CandidateView>,
    family: Seq<(Seq<char>, Score)>,
    own: CandidateView,
) -> Collapse {
    if before.settled.contains(own.id) {
        before
    } else if family.len() <= 1 {
        Collapse { kept: before.kept.push(own), settled: before.settled.push(own.id) }
    } else {
        let offer = offer_of(candidates, family, own);
        Collapse {
            kept: if before.settled.contains(offer.id) {
                before.kept
            } else {
                before.kept.push(offer)
            },
            settled: before.settled + family_ids(family),
        }
    }
}

/// The first `n` candidates decided about.
pub open spec fn collapsed(
    candidates: Seq<CandidateView>,
    families: Seq<Seq<(Seq<char>, Score)>>,
    n: nat,
) -> Collapse
    decreases n,
{
    if n == 0 {
        Collapse { kept: Seq::empty(), settled: Seq::empty() }
    } else {
        collapse_one(
            collapsed(candidates, families, (n - 1) as nat),
            candidates,
            families[n - 1],
            candidates[n - 1],
        )
    }
}

/// The families of the candidates.
pub open spec fn family_views(families: Seq<Vec<(String, Score)>>) -> Seq<Seq<(Seq<char>, Score)>> {
    Seq::new(families.len(), |i: int| family_view(families[i]@))
}

/// Reduces each family to the member to offer. Family `i` is the lineage of
/// candidate `i`, root first, with everyone's score; it may hold members that
/// are no candidates, and they count as evidence.
pub fn collapse_families(candidates: Vec<Candidate>, families: &Vec<Vec<(String, Score)>>) -> (r: Vec<
    Candidate,
>)
    requires
        families@.len() == candidates@.len(),
    ensures
        views(r@) == collapsed(
            views(candidates@),
            family_views(families@),
            candidates@.len(),
        ).kept,
{
    let ghost all = views(candidates@);
    let ghost lines = family_views(families@);
    let mut kept: Vec<Candidate> = Vec::new();
    let mut settled: Vec<String> = Vec::new();
    let mut i: usize = 0;
    assert(views(kept@) =~= Seq::empty());
    assert(views(settled@) =~= Seq::empty());
    while i < candidates.len()
        invariant
            i <= candidates@.len(),
            families@.len() == candidates@.len(),
            all == views(candidates@),
            lines == family_views(families@),
            (Collapse { kept: views(kept@), settled: views(settled@) }) == collapsed(
                all,
                lines,
                i as nat,
            ),
        decreases candidates@.len() - i,
    {
        let own = &candidates[i];
        assert(all[i as int] == own@);
        let family = &families[i];
        assert(lines[i as int] == family_view(family@));
        let ghost before = Collapse { kept: views(kept@), settled: views(settled@) };
        if !among(&settled, own.id.as_str()) {
            if family.len() <= 1 {
                kept.push(own.clone());
                settled.push(own.id.clone());
                assert(views(kept@) =~= before.kept.push(own@));
                assert(views(settled@) =~= before.settled.push(own@.id));
            } else {
                let chosen: usize = pick_offer(&candidates, family, i);
                let offer = &candidates[chosen];
                if !among(&settled, offer.id.as_str()) {
                    kept.push(offer.clone());
                    assert(views(kept@) =~= before.kept.push(offer@));
                }
                let ghost ids = family_ids(family_view(family@));
                let mut k: usize = 0;
                assert(views(settled@) =~= before.settled + ids.take(0));
                while k < family.len()
                    invariant
                        k <= family@.len(),
                        ids == family_ids(family_view(family@)),
                        views(settled@) == before.settled + ids.take(k as int),
                    decreases family@.len() - k,
                {
                    let ghost so_far = views(settled@);
                    settled.push(family[k].0.clone());
                    assert(views(settled@) =~= so_far.push(ids[k as int]));
                    assert(ids.take(k + 1) =~= ids.take(k as int).push(ids[k as int]));
                    k = k + 1;
                    assert(views(settled@) =~= before.settled + ids.take(k as int));
                }
                assert(ids.take(k as int) =~= ids);
            }
        }
        i = i + 1;
    }
    kept
}

/// What is turned off, is a draft, or was tried in this episode is never
/// offered.
pub proof fn tried_and_disabled_are_never_offered(
    listed: Seq<SummaryView>,
    scores: Seq<Score>,
    tried: Seq<Seq<char>>,
    n: nat,
    i: int,
)
    requires
        n <= listed.len(),
        0 <= i < candidates_of(listed, scores, tried, n).len(),
    ensures
        !tried.contains(selected_signature(candidates_of(listed, scores, tried, n)[i].id)),
        exists|k: int|
            0 <= k < n && (#[trigger] listed[k]).enabled && !listed[k].draft && listed[k].id
                == candidates_of(
                listed,
                scores,
                tried,
                n,
            )[i].id,
    decreases n,
{
    let rest = candidates_of(listed, scores, tried, (n - 1) as nat);
    if i < rest.len() {
        tried_and_disabled_are_never_offered(listed, scores, tried, (n - 1) as nat, i);
    } else {
        assert(listed[n - 1].enabled);
    }
}

proof fn lemma_with_id(candidates: Seq<CandidateView>, id: Seq<char>)
    ensures
        with_id(candidates, id) matches Some(c) ==> candidates.contains(c) && c.id == id,
    decreases candidates.len(),
{
    if candidates.len() > 0 {
        if candidates[0].id != id {
            lemma_with_id(candidates.drop_first(), id);
            if with_id(candidates.drop_first(), id) is Some {
                let c = with_id(candidates.drop_first(), id)->0;
                let k = choose|k: int|
                    0 <= k < candidates.drop_first().len() && candidates.drop_first()[k] == c;
                assert(candidates[k + 1] == c);
            }
        } else {
            assert(candidates[0] == with_id(candidates, id)->0);
        }
    }
}

proof fn lemma_offerable_grows(
    candidates: Seq<CandidateView>,
    family: Seq<(Seq<char>, Score)>,
    m: nat,
    n: nat,
)
    requires
        m <= n <= family.len(),
    ensures
        offerable(candidates, family, m).is_prefix_of(offerable(candidates, family, n)),
    decreases n,
{
    if m < n {
        lemma_offerable_grows(candidates, family, m, (n - 1) as nat);
    }
}

proof fn lemma_offerable(
    candidates: Seq<CandidateView>,
    family: Seq<(Seq<char>, Score)>,
    m: nat,
    n: nat,
    k: int,
) -> (i: int)
    requires
        m <= n <= family.len(),
        offerable(candidates, family, m).len() <= k < offerable(candidates, family, n).len(),
    ensures
        m <= i < n,
        on_offer(candidates, family[i]),
        offerable(candidates, family, n)[k] == family[i],
    decreases n,
{
    let rest = offerable(candidates, family, (n - 1) as nat);
    if k < rest.len() {
        lemma_offerable(candidates, family, m, (n - 1) as nat, k)
    } else {
        n - 1
    }
}

/// A family's champion that is a candidate is the member to offer; only where
/// it is none is another offered.
pub proof fn champions_on_offer_are_offered(
    candidates: Seq<CandidateView>,
    family: Seq<(Seq<char>, Score)>,
    own: CandidateView,
    c: int,
)
    requires
        is_champion(family, c),
        on_offer(candidates, family[c]),
    ensures
        offer_of(candidates, family, own).id == family[c].0,
{
    let len = family.len();
    let open = offerable(candidates, family, len);
    let d = offerable(candidates, family, c as nat).len() as int;
    lemma_offerable_grows(candidates, family, (c + 1) as nat, len);
    let upto = offerable(candidates, family, (c + 1) as nat);
    assert(upto[d] == family[c]);
    assert(open[d] == family[c]);
    if exists|k: int| 0 <= k < open.len() && proven(#[trigger] open[k]) {
        let k = choose|k: int| 0 <= k < open.len() && proven(#[trigger] open[k]);
        let i = lemma_offerable(candidates, family, 0, len, k);
        assert(proven(family[i]));
        assert forall|k: int| 0 <= k < open.len() && proven(#[trigger] open[k]) implies !score_below(
            open[d].1,
            open[k].1,
        ) by {
            let i = lemma_offerable(candidates, family, 0, len, k);
            assert(proven(family[i]));
        }
        assert forall|k: int| d < k < open.len() && proven(#[trigger] open[k]) implies score_below(
            open[k].1,
            open[d].1,
        ) by {
            let i = lemma_offerable(candidates, family, (c + 1) as nat, len, k);
            assert(proven(family[i]));
        }
    } else {
        assert(!proven(open[d]));
        assert(!proven(family[c]));
        assert(c == 0);
    }
    assert(is_champion(open, d));
    let e = choose|e: int| #[trigger] is_champion(open, e);
    champions_are_unique(open, d, e);
    lemma_with_id(candidates, family[c].0);
}

/// What is offered of a family is the best of its candidates: no proven
/// candidate of the family has the better score.
pub proof fn the_best_candidate_is_offered(
    candidates: Seq<CandidateView>,
    family: Seq<(Seq<char>, Score)>,
    own: CandidateView,
    i: int,
)
    requires
        0 <= i < family.len(),
        on_offer(candidates, family[i]),
        proven(family[i]),
    ensures
        exists|c: int|
            0 <= c < family.len() && (#[trigger] family[c]).0 == offer_of(
                candidates,
                family,
                own,
            ).id && proven(family[c]) && !score_below(family[c].1, family[i].1),
{
    let len = family.len();
    let open = offerable(candidates, family, len);
    let k = offerable(candidates, family, i as nat).len() as int;
    lemma_offerable_grows(candidates, family, (i + 1) as nat, len);
    let upto = offerable(candidates, family, (i + 1) as nat);
    assert(upto[k] == family[i]);
    assert(open[k] == family[i]);
    lemma_champion_among(open);
    let d = choose|d: int| #[trigger] is_champion(open, d);
    assert(proven(open[k]));
    let c = lemma_offerable(candidates, family, 0, len, d);
    lemma_with_id(candidates, family[c].0);
    assert(proven(family[c]) && !score_below(family[c].1, family[i].1));
}

/// Collapsing invents nothing: whatever is kept was a candidate.
pub proof fn kept_workflows_were_candidates(
    candidates: Seq<CandidateView>,
    families: Seq<Seq<(Seq<char>, Score)>>,
    n: nat,
    i: int,
)
    requires
        n <= candidates.len(),
        0 <= i < collapsed(candidates, families, n).kept.len(),
    ensures
        candidates.contains(collapsed(candidates, families, n).kept[i]),
    decreases n,
{
    let before = collapsed(candidates, families, (n - 1) as nat);
    if i < before.kept.len() {
        kept_workflows_were_candidates(candidates, families, (n - 1) as nat, i);
    } else {
        let family = families[n - 1];
        lemma_with_id(candidates, champion_of(offerable(candidates, family, family.len())));
        assert(candidates[n - 1] == candidates[n as int - 1]);
    }
}

/// The lineages agree: each holds its own candidate, and a candidate that
/// stands in another's lineage has that same lineage.
pub open spec fn lineages_agree(
    candidates: Seq<CandidateView>,
    families: Seq<Seq<(Seq<char>, Score)>>,
) -> bool {
    &&& families.len() == candidates.len()
    &&& forall|i: int|
        0 <= i < candidates.len() ==> family_ids(#[trigger] families[i]).contains(candidates[i].id)
    &&& forall|i: int, j: int|
        #![trigger families[i], families[j]]
        0 <= i < candidates.len() && 0 <= j < candidates.len() && family_ids(families[i]).contains(
            candidates[j].id,
        ) ==> family_ids(families[j]) == family_ids(families[i])
}

/// The ids of a lineage are all settled.
pub open spec fn is_settled(ids: Seq<Seq<char>>, settled: Seq<Seq<char>>) -> bool {
    forall|k: int| 0 <= k < ids.len() ==> settled.contains(#[trigger] ids[k])
}

/// What is kept belongs to a settled lineage.
pub open spec fn kept_is_settled(
    candidates: Seq<CandidateView>,
    families: Seq<Seq<(Seq<char>, Score)>>,
    at: Collapse,
) -> bool {
    forall|p: int|
        0 <= p < at.kept.len() ==> exists|j: int|
            0 <= j < candidates.len() && candidates[j] == (#[trigger] at.kept[p]) && is_settled(
                family_ids(#[trigger] families[j]),
                at.settled,
            )
}

/// No lineage holds two that are kept.
pub open spec fn kept_once(families: Seq<Seq<(Seq<char>, Score)>>, kept: Seq<CandidateView>) -> bool {
    forall|i: int, p: int, q: int|
        #![trigger families[i], kept[p], kept[q]]
        0 <= i < families.len() && 0 <= p < q < kept.len() ==> !(family_ids(families[i]).contains(
            kept[p].id,
        ) && family_ids(families[i]).contains(kept[q].id))
}

proof fn lemma_offer(
    candidates: Seq<CandidateView>,
    families: Seq<Seq<(Seq<char>, Score)>>,
    n: int,
) -> (j: int)
    requires
        lineages_agree(candidates, families),
        0 <= n < candidates.len(),
    ensures
        0 <= j < candidates.len(),
        candidates[j] == offer_of(candidates, families[n], candidates[n]),
        family_ids(families[j]) == family_ids(families[n]),
{
    let family = families[n];
    let offer = offer_of(candidates, family, candidates[n]);
    let ids = family_ids(family);
    let open = offerable(candidates, family, family.len());
    assert(ids.contains(candidates[n].id));
    if open.len() > 0 {
        lemma_champion_among(open);
        let c = choose|c: int| #[trigger] is_champion(open, c);
        let i = lemma_offerable(candidates, family, 0, family.len(), c);
        assert(ids[i] == champion_of(open));
        lemma_with_id(candidates, champion_of(open));
    }
    assert(candidates[n] == candidates[n]);
    assert(candidates.contains(offer));
    assert(ids.contains(offer.id));
    let j = choose|j: int| 0 <= j < candidates.len() && candidates[j] == offer;
    assert(families[j] == families[j]);
    j
}

/// Repaired families are no choice: of each lineage, at most one member is
/// offered.
pub proof fn families_are_offered_once(
    candidates: Seq<CandidateView>,
    families: Seq<Seq<(Seq<char>, Score)>>,
    n: nat,
)
    requires
        lineages_agree(candidates, families),
        n <= candidates.len(),
    ensures
        kept_is_settled(candidates, families, collapsed(candidates, families, n)),
        kept_once(families, collapsed(candidates, families, n).kept),
    decreases n,
{
    if n > 0 {
        let before = collapsed(candidates, families, (n - 1) as nat);
        let after = collapsed(candidates, families, n);
        let own = candidates[n - 1];
        let ids = family_ids(families[n - 1]);
        families_are_offered_once(candidates, families, (n - 1) as nat);
        if before.settled.contains(own.id) {
            assert(after == before);
        } else {
            assert(ids.contains(own.id));
            let j = if families[n - 1].len() <= 1 {
                n - 1
            } else {
                lemma_offer(candidates, families, n - 1)
            };
            let offer = candidates[j];
            assert forall|id: Seq<char>| before.settled.contains(id) implies #[trigger]
                after.settled.contains(id) by {
                let k = choose|k: int| 0 <= k < before.settled.len() && before.settled[k] == id;
                assert(after.settled[k] == id);
            }
            assert(is_settled(ids, after.settled)) by {
                assert forall|k: int| 0 <= k < ids.len() implies after.settled.contains(
                    #[trigger] ids[k],
                ) by {
                    if families[n - 1].len() <= 1 {
                        assert(ids.len() == 1);
                        assert(ids[0] == own.id);
                        assert(after.settled.last() == own.id);
                    } else {
                        assert(after.settled[before.settled.len() + k] == ids[k]);
                    }
                }
            }
            assert forall|p: int| 0 <= p < after.kept.len() implies exists|m: int|
                0 <= m < candidates.len() && candidates[m] == (#[trigger] after.kept[p])
                    && is_settled(family_ids(#[trigger] families[m]), after.settled) by {
                if p < before.kept.len() {
                    assert(after.kept[p] == before.kept[p]);
                    let m = choose|m: int|
                        0 <= m < candidates.len() && candidates[m] == before.kept[p] && is_settled(
                            family_ids(#[trigger] families[m]),
                            before.settled,
                        );
                    assert(is_settled(family_ids(families[m]), after.settled));
                } else {
                    assert(after.kept[p] == candidates[j]);
                    assert(is_settled(family_ids(families[j]), after.settled));
                }
            }
            assert forall|i: int, p: int, q: int|
                #![trigger families[i], after.kept[p], after.kept[q]]
                0 <= i < families.len() && 0 <= p < q < after.kept.len() implies !(family_ids(
                families[i],
            ).contains(after.kept[p].id) && family_ids(families[i]).contains(
                after.kept[q].id,
            )) by {
                assert(p < before.kept.len());
                assert(after.kept[p] == before.kept[p]);
                if q < before.kept.len() {
                    assert(after.kept[q] == before.kept[q]);
                } else if family_ids(families[i]).contains(after.kept[p].id) && family_ids(
                    families[i],
                ).contains(after.kept[q].id) {
                    assert(after.kept[q] == offer);
                    assert(family_ids(families[j]) == family_ids(families[i]));
                    let m = choose|m: int|
                        0 <= m < candidates.len() && candidates[m] == before.kept[p] && is_settled(
                            family_ids(#[trigger] families[m]),
                            before.settled,
                        );
                    assert(family_ids(families[m]) == family_ids(families[i]));
                    let k = choose|k: int| 0 <= k < ids.len() && ids[k] == own.id;
                    assert(family_ids(families[m])[k] == own.id);
                    assert(false);
                }
            }
        }
    }
}

/// Some member of the lineage is kept.
pub open spec fn is_represented(ids: Seq<Seq<char>>, kept: Seq<CandidateView>) -> bool {
    exists|p: int| 0 <= p < kept.len() && ids.contains((#[trigger] kept[p]).id)
}

proof fn lemma_still_represented(
    ids: Seq<Seq<char>>,
    before: Seq<CandidateView>,
    after: Seq<CandidateView>,
)
    requires
        is_represented(ids, before),
        before.is_prefix_of(after),
    ensures
        is_represented(ids, after),
{
    let p = choose|p: int| 0 <= p < before.len() && ids.contains((#[trigger] before[p]).id);
    assert(after[p] == before[p]);
}

proof fn lemma_settled_is_represented(
    candidates: Seq<CandidateView>,
    families: Seq<Seq<(Seq<char>, Score)>>,
    n: nat,
)
    requires
        lineages_agree(candidates, families),
        n <= candidates.len(),
    ensures
        forall|i: int| 0 <= i < n ==> collapsed(candidates, families, n).settled.contains(
            (#[trigger] candidates[i]).id,
        ),
        forall|m: int|
            0 <= m < candidates.len() && collapsed(candidates, families, n).settled.contains(
                (#[trigger] candidates[m]).id,
            ) ==> is_represented(
                family_ids(families[m]),
                collapsed(candidates, families, n).kept,
            ),
    decreases n,
{
    if n > 0 {
        lemma_settled_is_represented(candidates, families, (n - 1) as nat);
        let before = collapsed(candidates, families, (n - 1) as nat);
        let after = collapsed(candidates, families, n);
        let own = candidates[n - 1];
        let ids = family_ids(families[n - 1]);
        if !before.settled.contains(own.id) {
            assert(ids.contains(own.id));
            let j = if families[n - 1].len() <= 1 {
                n - 1
            } else {
                lemma_offer(candidates, families, n - 1)
            };
            let offer = candidates[j];
            assert(family_ids(families[j]).contains(offer.id));
            if before.settled.contains(offer.id) {
                assert(after.kept == before.kept);
                assert(is_represented(ids, after.kept));
            } else {
                assert(after.kept == before.kept.push(offer));
                assert(after.kept[before.kept.len() as int] == offer);
                assert(is_represented(ids, after.kept));
            }
            assert(before.kept.is_prefix_of(after.kept));
            assert forall|id: Seq<char>| before.settled.contains(id) implies #[trigger]
                after.settled.contains(id) by {
                let k = choose|k: int| 0 <= k < before.settled.len() && before.settled[k] == id;
                assert(after.settled[k] == id);
            }
            assert(after.settled.contains(own.id)) by {
                if families[n - 1].len() <= 1 {
                    assert(after.settled.last() == own.id);
                } else {
                    let k = choose|k: int| 0 <= k < ids.len() && ids[k] == own.id;
                    assert(after.settled[before.settled.len() + k] == own.id);
                }
            }
            assert forall|m: int|
                0 <= m < candidates.len() && after.settled.contains(
                    (#[trigger] candidates[m]).id,
                ) implies is_represented(family_ids(families[m]), after.kept) by {
                let id = candidates[m].id;
                if before.settled.contains(id) {
                    lemma_still_represented(family_ids(families[m]), before.kept, after.kept);
                } else {
                    let k = choose|k: int| 0 <= k < after.settled.len() && after.settled[k] == id;
                    assert(k >= before.settled.len()) by {
                        if k < before.settled.len() {
                            assert(before.settled[k] == id);
                        }
                    }
                    assert(ids.contains(id)) by {
                        if families[n - 1].len() > 1 {
                            assert(ids[k - before.settled.len()] == id);
                        }
                    }
                    assert(family_ids(families[m]) == family_ids(families[n - 1]));
                }
            }
        }
    }
}

/// No family is lost: of each candidate's lineage, one member is kept, and only
/// one.
pub proof fn every_family_is_offered(
    candidates: Seq<CandidateView>,
    families: Seq<Seq<(Seq<char>, Score)>>,
    i: int,
)
    requires
        lineages_agree(candidates, families),
        0 <= i < candidates.len(),
    ensures
        is_represented(
            family_ids(families[i]),
            collapsed(candidates, families, candidates.len()).kept,
        ),
        kept_once(families, collapsed(candidates, families, candidates.len()).kept),
{
    lemma_settled_is_represented(candidates, families, candidates.len());
    families_are_offered_once(candidates, families, candidates.len());
}

} // verus!
