use history_protocol::consensus::calculate_consensus_score;
use history_protocol::consensus::classify;
use history_protocol::consensus::recompute_score;
use history_protocol::AccountId;
use history_protocol::HistoricalEvent;
use history_protocol::Timeline;

fn event_with_votes(support_votes: u32, challenge_votes: u32) -> HistoricalEvent {
    HistoricalEvent {
        id: 7,
        title: String::from("Title"),
        date: 11,
        description: String::from("Description"),
        evidence_sources: vec![String::from("evidence")],
        tags: vec![String::from("Science")],
        submitter: AccountId { bytes: [9u8; 32] },
        timeline: Timeline::Disputed,
        consensus_score: 0,
        support_votes,
        challenge_votes,
        created_at: 13,
    }
}

#[test]
fn score_without_votes_is_zero() {
    assert_eq!(recompute_score(0, 0), 0);
}

#[test]
fn score_is_truncated_percentage() {
    assert_eq!(recompute_score(1, 0), 100);
    assert_eq!(recompute_score(0, 1), 0);
    assert_eq!(recompute_score(1, 1), 50);
    assert_eq!(recompute_score(1, 2), 33);
    assert_eq!(recompute_score(2, 1), 66);
    assert_eq!(recompute_score(3, 1), 75);
    assert_eq!(recompute_score(1, 3), 25);
    assert_eq!(recompute_score(299, 101), 74);
    assert_eq!(recompute_score(1, 99), 1);
    assert_eq!(recompute_score(1, 100), 0);
    assert_eq!(recompute_score(999, 1), 99);
}

#[test]
fn score_at_largest_exact_support() {
    assert_eq!(recompute_score(42_949_672, 0), 100);
    assert_eq!(recompute_score(42_949_672, 42_949_672), 50);
}

#[test]
fn score_saturates_scaled_support() {
    assert_eq!(recompute_score(50_000_000, 50_000_000), 42);
    assert_eq!(recompute_score(50_000_000, 0), 85);
    assert_eq!(recompute_score(42_949_673, 0), 99);
}

#[test]
fn score_saturates_total() {
    assert_eq!(recompute_score(u32::MAX, u32::MAX), 1);
    assert_eq!(recompute_score(u32::MAX, 0), 1);
    assert_eq!(recompute_score(1, u32::MAX), 0);
    assert_eq!(recompute_score(0, u32::MAX), 0);
}

#[test]
fn score_never_exceeds_hundred() {
    let counts = [0u32, 1, 2, 3, 10, 99, 100, 101, 42_949_672, 42_949_673, u32::MAX];
    for support in counts {
        for challenge in counts {
            assert!(recompute_score(support, challenge) <= 100);
        }
    }
}

#[test]
fn classify_thresholds_are_closed() {
    assert_eq!(classify(100), Timeline::Canonical);
    assert_eq!(classify(76), Timeline::Canonical);
    assert_eq!(classify(75), Timeline::Canonical);
    assert_eq!(classify(74), Timeline::Disputed);
    assert_eq!(classify(50), Timeline::Disputed);
    assert_eq!(classify(26), Timeline::Disputed);
    assert_eq!(classify(25), Timeline::Alternative);
    assert_eq!(classify(24), Timeline::Alternative);
    assert_eq!(classify(0), Timeline::Alternative);
}

#[test]
fn classify_covers_every_score() {
    for score in 0u8..=255 {
        let expected = if score >= 75 {
            Timeline::Canonical
        } else if score <= 25 {
            Timeline::Alternative
        } else {
            Timeline::Disputed
        };
        assert_eq!(classify(score), expected);
    }
}

#[test]
fn calculate_consensus_score_sets_only_the_score() {
    let mut event = event_with_votes(3, 1);
    calculate_consensus_score(&mut event);
    assert_eq!(event.consensus_score, 75);
    assert_eq!(event.id, 7);
    assert_eq!(event.title, "Title");
    assert_eq!(event.date, 11);
    assert_eq!(event.description, "Description");
    assert_eq!(event.evidence_sources, vec![String::from("evidence")]);
    assert_eq!(event.tags, vec![String::from("Science")]);
    assert_eq!(event.submitter, AccountId { bytes: [9u8; 32] });
    assert_eq!(event.timeline, Timeline::Disputed);
    assert_eq!(event.support_votes, 3);
    assert_eq!(event.challenge_votes, 1);
    assert_eq!(event.created_at, 13);
}

#[test]
fn calculate_consensus_score_resets_without_votes() {
    let mut event = event_with_votes(0, 0);
    event.consensus_score = 88;
    calculate_consensus_score(&mut event);
    assert_eq!(event.consensus_score, 0);
}
