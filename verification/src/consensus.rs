//! The consensus engine: vote counts to score, score to timeline category.
//!
//! Both steps are pure functions with no state of their own. The score is
//! computed in truncating integer arithmetic that saturates at the limits of
//! `u32`, so that the same counts give the same score everywhere.

use vstd::prelude::*;
use crate::types::EventData;
use crate::types::HistoricalEvent;
use crate::types::Timeline;

verus! {

/// The score at or above which an event is canonical.
pub const CANONICAL_THRESHOLD: u8 = 75;

/// The score at or below which an event is alternative.
pub const ALTERNATIVE_THRESHOLD: u8 = 25;

/// The number of votes cast, capped at the largest `u32`.
pub open spec fn total_votes(support: u32, challenge: u32) -> int {
    if support + challenge > u32::MAX {
        u32::MAX as int
    } else {
        support + challenge
    }
}

/// A hundred times the support count, capped at the largest `u32`.
pub open spec fn scaled_support(support: u32) -> int {
    if support * 100 > u32::MAX {
        u32::MAX as int
    } else {
        support * 100
    }
}

/// The consensus score of an event with the given vote counts: zero without
/// votes, else the truncated quotient of the scaled support by the total,
/// capped at 100.
pub open spec fn score_of(support: u32, challenge: u32) -> u8 {
    let total = total_votes(support, challenge);
    if total == 0 {
        0u8
    } else {
        let quotient = scaled_support(support) / total;
        if quotient > 100 {
            100u8
        } else {
            quotient as u8
        }
    }
}

/// The timeline category that a score falls into. The thresholds are closed:
/// 75 is canonical and 25 is alternative.
pub open spec fn timeline_of(score: u8) -> Timeline {
    if score >= CANONICAL_THRESHOLD {
        Timeline::Canonical
    } else if score <= ALTERNATIVE_THRESHOLD {
        Timeline::Alternative
    } else {
        Timeline::Disputed
    }
}

/// Computes the consensus score from the two vote counts.
pub fn recompute_score(support: u32, challenge: u32) -> (score: u8)
    ensures
        score == score_of(support, challenge),
        score <= 100,
{
    let total: u32 = support.saturating_add(challenge);
    if total == 0 {
        0
    } else {
        let numerator: u32 = match support.checked_mul(100) {
            Some(product) => product,
            None => u32::MAX,
        };
        let quotient: u32 = numerator / total;
        if quotient > 100 {
            100
        } else {
            quotient as u8
        }
    }
}

/// Classifies a score into its timeline category.
pub fn classify(score: u8) -> (timeline: Timeline)
    ensures
        timeline == timeline_of(score),
{
    if score >= CANONICAL_THRESHOLD {
        Timeline::Canonical
    } else if score <= ALTERNATIVE_THRESHOLD {
        Timeline::Alternative
    } else {
        Timeline::Disputed
    }
}

/// Recomputes the score of an event from its own vote counts and leaves
/// every other field as it was.
pub fn calculate_consensus_score(event: &mut HistoricalEvent)
    ensures
        final(event)@ == (EventData {
            consensus_score: score_of(old(event).support_votes, old(event).challenge_votes),
            ..old(event)@
        }),
{
    event.consensus_score = recompute_score(event.support_votes, event.challenge_votes);
}

/// The score never leaves the range from 0 to 100.
pub proof fn lemma_score_in_range(support: u32, challenge: u32)
    ensures
        0 <= score_of(support, challenge) <= 100,
{
}

/// As long as a hundred times the support count fits in a `u32`, the score is
/// the exact truncated percentage of support among all votes, which is then
/// at most 100 by itself.
pub proof fn lemma_score_is_truncated_percentage(support: u32, challenge: u32)
    requires
        support * 100 <= u32::MAX,
        support + challenge > 0,
    ensures
        score_of(support, challenge) == (support * 100) / (support + challenge),
        (support * 100) / (support + challenge) <= 100,
{
    let s: int = support as int;
    let c: int = challenge as int;
    assert((s * 100) / (s + c) <= 100) by (nonlinear_arith)
        requires
            s >= 0,
            c >= 0,
            s + c > 0,
    ;
    assert((s * 100) / (s + c) >= 0) by (nonlinear_arith)
        requires
            s >= 0,
            c >= 0,
            s + c > 0,
    ;
    if s + c > u32::MAX {
        let m: int = u32::MAX as int;
        assert((s * 100) / m == 0) by (nonlinear_arith)
            requires
                0 <= s * 100 < m,
        ;
        assert((s * 100) / (s + c) == 0) by (nonlinear_arith)
            requires
                0 <= s * 100 < s + c,
        ;
    }
}

/// The category is canonical exactly from 75 up, alternative exactly from 25
/// down, and disputed exactly in between.
pub proof fn lemma_timeline_thresholds(score: u8)
    ensures
        timeline_of(score) == Timeline::Canonical <==> score >= 75,
        timeline_of(score) == Timeline::Alternative <==> score <= 25,
        timeline_of(score) == Timeline::Disputed <==> 25 < score < 75,
{
}

} // verus!
