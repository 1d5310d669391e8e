//! The adaptive loop: plan an attempt at a goal, run it, judge it, learn.
pub mod closing;
pub mod contracts;
pub mod driver;
pub mod episode_laws;
pub mod execute;
pub mod intake;
pub mod ledger;
pub mod promotion;
pub mod recall;
pub mod recall_laws;
