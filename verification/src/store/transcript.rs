//! One line of what an agent did, as a run record keeps it.
//!
//! The kind is kept as the host wrote it and is mapped to no closed set, so
//! that a kind added later still has a time and a line to show.
use vstd::prelude::*;

verus! {

/// One thing an agent did.
#[derive(Debug, PartialEq, Eq)]
pub struct TranscriptEntry {
    /// Milliseconds since the epoch, as the host stamped the event.
    pub at_ms: i64,
    /// The kind of event this was made from.
    pub kind: String,
    /// The line to show.
    pub text: String,
}

#[verifier::ext_equal]
pub struct TranscriptView {
    pub at_ms: i64,
    pub kind: Seq<char>,
    pub text: Seq<char>,
}

impl View for TranscriptEntry {
    type V = TranscriptView;

    open spec fn view(&self) -> TranscriptView {
        TranscriptView { at_ms: self.at_ms, kind: self.kind@, text: self.text@ }
    }
}

impl Clone for TranscriptEntry {
    fn clone(&self) -> (r: Self)
        ensures
            r@ == self@,
    {
        TranscriptEntry { at_ms: self.at_ms, kind: self.kind.clone(), text: self.text.clone() }
    }
}

} // verus!
