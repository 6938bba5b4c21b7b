//! Fast-forward merge classification.
//!
//! The engine never performs a non-fast-forward merge: the relationship
//! between the local head and a fetched candidate commit is classified, and
//! only a strict-descendant candidate makes the head advance. Divergence is
//! a recognized terminal outcome, not an error.
//!
//! Commits are identified by plain object identifiers. The one commit-graph
//! fact the classification needs — whether the local head is a strict
//! ancestor of the candidate — is answered by the repository-access layer
//! and handed in as an argument, so the classification itself is a pure
//! function of its inputs.

use vstd::prelude::*;

verus! {

/// How a candidate commit relates to the local head.
#[derive(Clone, Copy, PartialEq, Eq, Structural, Debug)]
pub enum MergeClassification {
    /// The head and the candidate are the same commit; nothing to do.
    UpToDate,
    /// The head is a strict ancestor of the candidate, which is carried
    /// along: the head may simply advance to it.
    FastForwardable(u64),
    /// Neither commit is an ancestor of the other; the engine leaves the
    /// head alone.
    Diverged,
}

/// The classification of `candidate` against `local_head`, given whether
/// `local_head` is a strict ancestor of `candidate` in the commit graph.
pub open spec fn classify(local_head: u64, candidate: u64, local_is_ancestor: bool) -> MergeClassification {
    if local_head == candidate {
        MergeClassification::UpToDate
    } else if local_is_ancestor {
        MergeClassification::FastForwardable(candidate)
    } else {
        MergeClassification::Diverged
    }
}

/// Classify the candidate commit against the local head.
///
/// `local_is_ancestor` is the commit-graph answer to "is `local_head` a
/// strict ancestor of `candidate`?"; it is only consulted when the two
/// commits differ.
pub fn analyze(local_head: u64, candidate: u64, local_is_ancestor: bool) -> (c: MergeClassification)
    ensures
        c == classify(local_head, candidate, local_is_ancestor),
        local_head == candidate ==> c == MergeClassification::UpToDate,
        local_head != candidate && local_is_ancestor ==> c == MergeClassification::FastForwardable(
            candidate,
        ),
        local_head != candidate && !local_is_ancestor ==> c == MergeClassification::Diverged,
{
    if local_head == candidate {
        MergeClassification::UpToDate
    } else if local_is_ancestor {
        MergeClassification::FastForwardable(candidate)
    } else {
        MergeClassification::Diverged
    }
}

/// Classification is a pure function of its inputs: two classifications of
/// the same pair, under the same commit-graph answer, are the same value.
pub proof fn lemma_classification_deterministic(
    local_head: u64,
    candidate: u64,
    local_is_ancestor: bool,
    first: MergeClassification,
    second: MergeClassification,
)
    requires
        first == classify(local_head, candidate, local_is_ancestor),
        second == classify(local_head, candidate, local_is_ancestor),
    ensures
        first == second,
{
}

} // verus!
