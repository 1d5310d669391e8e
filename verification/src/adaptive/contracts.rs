//! The terms the loop is written in: goals, approaches, verdicts and budgets.
use vstd::prelude::*;

verus! {

/// What is to be achieved.
#[derive(Debug, PartialEq, Eq)]
pub struct Goal {
    pub text: String,
    /// How to tell that it was achieved; empty where nobody said.
    pub success_criteria: String,
}

#[verifier::ext_equal]
pub struct GoalView {
    pub text: Seq<char>,
    pub success_criteria: Seq<char>,
}

impl View for Goal {
    type V = GoalView;

    open spec fn view(&self) -> GoalView {
        GoalView { text: self.text@, success_criteria: self.success_criteria@ }
    }
}

impl Goal {
    /// A goal with no stated criteria.
    pub fn new(text: &str) -> (r: Self)
        ensures
            r@ == (GoalView { text: text@, success_criteria: Seq::empty() }),
    {
        Goal { text: text.to_owned(), success_criteria: String::new() }
    }
}

impl Clone for Goal {
    fn clone(&self) -> (r: Self)
        ensures
            r@ == self@,
    {
        Goal { text: self.text.clone(), success_criteria: self.success_criteria.clone() }
    }
}

/// Which job a model is asked to do.
#[derive(Debug, Clone, Copy, PartialEq, Eq, Structural)]
pub enum Tier {
    Select,
    Author,
    Judge,
}

pub open spec fn tier_text(tier: Tier) -> Seq<char> {
    match tier {
        Tier::Select => "select"@,
        Tier::Author => "author"@,
        Tier::Judge => "judge"@,
    }
}

impl Tier {
    /// The name a request carries.
    pub fn as_str(&self) -> (r: &'static str)
        ensures
            r@ == tier_text(*self),
    {
        match self {
            Tier::Select => "select",
            Tier::Author => "author",
            Tier::Judge => "judge",
        }
    }
}

/// How an attempt came about.
#[derive(Debug, PartialEq, Eq)]
pub enum Approach {
    /// A stored workflow was chosen.
    Selected { workflow_id: String, why: String },
    /// A graph was written for the goal.
    Authored { why: String, fingerprint: String },
    /// A repaired copy of a stored workflow was run.
    Variant { parent_id: String, why: String },
}

#[verifier::ext_equal]
pub enum ApproachView {
    Selected { workflow_id: Seq<char>, why: Seq<char> },
    Authored { why: Seq<char>, fingerprint: Seq<char> },
    Variant { parent_id: Seq<char>, why: Seq<char> },
}

impl View for Approach {
    type V = ApproachView;

    open spec fn view(&self) -> ApproachView {
        match *self {
            Approach::Selected { workflow_id, why } => ApproachView::Selected {
                workflow_id: workflow_id@,
                why: why@,
            },
            Approach::Authored { why, fingerprint } => ApproachView::Authored {
                why: why@,
                fingerprint: fingerprint@,
            },
            Approach::Variant { parent_id, why } => ApproachView::Variant {
                parent_id: parent_id@,
                why: why@,
            },
        }
    }
}

impl Clone for Approach {
    fn clone(&self) -> (r: Self)
        ensures
            r@ == self@,
    {
        match self {
            Approach::Selected { workflow_id, why } => Approach::Selected {
                workflow_id: workflow_id.clone(),
                why: why.clone(),
            },
            Approach::Authored { why, fingerprint } => Approach::Authored {
                why: why.clone(),
                fingerprint: fingerprint.clone(),
            },
            Approach::Variant { parent_id, why } => Approach::Variant {
                parent_id: parent_id.clone(),
                why: why.clone(),
            },
        }
    }
}

/// The signature under which a stored workflow is excluded once tried.
pub open spec fn selected_signature(id: Seq<char>) -> Seq<char> {
    "selected:"@ + id
}

impl ApproachView {
    /// What an attempt is recognised by when it comes again.
    pub open spec fn signature(self) -> Seq<char> {
        match self {
            ApproachView::Selected { workflow_id, .. } => selected_signature(workflow_id),
            ApproachView::Authored { fingerprint, .. } => "authored:"@ + fingerprint,
            ApproachView::Variant { parent_id, .. } => "variant:"@ + parent_id,
        }
    }

    /// Why this approach was taken.
    pub open spec fn why(self) -> Seq<char> {
        match self {
            ApproachView::Selected { why, .. } => why,
            ApproachView::Authored { why, .. } => why,
            ApproachView::Variant { why, .. } => why,
        }
    }

    /// The stored workflow this attempt is evidence about.
    pub open spec fn workflow(self) -> Option<Seq<char>> {
        match self {
            ApproachView::Selected { workflow_id, .. } => Some(workflow_id),
            ApproachView::Variant { parent_id, .. } => Some(parent_id),
            ApproachView::Authored { .. } => None,
        }
    }
}

/// The signature under which a stored workflow is excluded once tried.
pub fn signature_of_selected(id: &str) -> (r: String)
    ensures
        r@ == selected_signature(id@),
{
    let mut text = "selected:".to_owned();
    text.append(id);
    text
}

impl Approach {
    /// What this attempt is recognised by when it comes again.
    pub fn signature(&self) -> (r: String)
        ensures
            r@ == self@.signature(),
    {
        match self {
            Approach::Selected { workflow_id, .. } => signature_of_selected(workflow_id.as_str()),
            Approach::Authored { fingerprint, .. } => {
                let mut text = "authored:".to_owned();
                text.append(fingerprint.as_str());
                text
            },
            Approach::Variant { parent_id, .. } => {
                let mut text = "variant:".to_owned();
                text.append(parent_id.as_str());
                text
            },
        }
    }
}

/// What stood between a run and its goal.
#[derive(Debug, Clone, Copy, PartialEq, Eq, Structural)]
pub enum Blocker {
    /// Nothing did.
    Nothing,
    GoalNotMet,
    MissingEvidence,
    NeedsInput,
}

pub open spec fn blocker_text(blocker: Blocker) -> Seq<char> {
    match blocker {
        Blocker::Nothing => "None"@,
        Blocker::GoalNotMet => "GoalNotMet"@,
        Blocker::MissingEvidence => "MissingEvidence"@,
        Blocker::NeedsInput => "NeedsInput"@,
    }
}

impl Blocker {
    /// Another attempt could get past this.
    pub open spec fn can_continue(self) -> bool {
        self != Blocker::NeedsInput
    }

    /// The blocker's name.
    pub fn name(&self) -> (r: &'static str)
        ensures
            r@ == blocker_text(*self),
    {
        match self {
            Blocker::Nothing => "None",
            Blocker::GoalNotMet => "GoalNotMet",
            Blocker::MissingEvidence => "MissingEvidence",
            Blocker::NeedsInput => "NeedsInput",
        }
    }

    /// Whether another attempt could get past this.
    pub fn continuable(&self) -> (r: bool)
        ensures
            r == self.can_continue(),
    {
        match self {
            Blocker::NeedsInput => false,
            _ => true,
        }
    }
}

/// How hard to try.
#[derive(Debug, Clone, Copy, PartialEq, Eq, Structural)]
pub struct Budget {
    /// Attempts before giving up.
    pub max_attempts: u32,
    /// Attempts in a row that may make no progress before giving up.
    pub max_stalled: u32,
}

impl Default for Budget {
    fn default() -> (r: Self)
        ensures
            r == (Budget { max_attempts: 12, max_stalled: 2 }),
    {
        Budget { max_attempts: 12, max_stalled: 2 }
    }
}

impl Budget {
    /// Whether no attempt is left after this one.
    pub fn exhausted(&self, attempt: u32) -> (r: bool)
        ensures
            r == (attempt >= self.max_attempts),
    {
        attempt >= self.max_attempts
    }
}

/// What the judge concluded about one attempt.
#[derive(Debug, PartialEq, Eq)]
pub struct Verdict {
    pub satisfied: bool,
    pub blocker: Blocker,
    /// What is still missing, in the judge's words.
    pub gap: String,
    pub attributed_to: String,
    pub evidence: String,
    /// Whether the attempt got closer, even where it fell short.
    pub advanced: bool,
}

#[verifier::ext_equal]
pub struct VerdictView {
    pub satisfied: bool,
    pub blocker: Blocker,
    pub gap: Seq<char>,
    pub attributed_to: Seq<char>,
    pub evidence: Seq<char>,
    pub advanced: bool,
}

impl View for Verdict {
    type V = VerdictView;

    open spec fn view(&self) -> VerdictView {
        VerdictView {
            satisfied: self.satisfied,
            blocker: self.blocker,
            gap: self.gap@,
            attributed_to: self.attributed_to@,
            evidence: self.evidence@,
            advanced: self.advanced,
        }
    }
}

impl VerdictView {
    /// Another attempt is worth making.
    pub open spec fn worth_retrying(self, attempt: u32, stalled: u32, budget: Budget) -> bool {
        &&& !self.satisfied
        &&& self.blocker.can_continue()
        &&& attempt < budget.max_attempts
        &&& stalled < budget.max_stalled
    }
}

impl Verdict {
    /// Whether another attempt is worth making: the goal is not met, nothing
    /// rules it out, and neither the budget nor the patience is spent.
    pub fn should_retry(&self, attempt: u32, stalled: u32, budget: &Budget) -> (r: bool)
        ensures
            r == self@.worth_retrying(attempt, stalled, *budget),
    {
        !self.satisfied && self.blocker.continuable() && !budget.exhausted(attempt) && stalled
            < budget.max_stalled
    }
}

} // verus!
