use history_protocol::AccountId;
use history_protocol::Error;
use history_protocol::HistoricalEvent;
use history_protocol::HistoryProtocol;
use history_protocol::Timeline;

fn account(byte: u8) -> AccountId {
    AccountId { bytes: [byte; 32] }
}

fn strings(items: &[&str]) -> Vec<String> {
    items.iter().map(|item| String::from(*item)).collect()
}

fn submit_tagged(registry: &mut HistoryProtocol, caller: AccountId, tags: &[&str]) -> u64 {
    registry
        .submit_event(
            String::from("Title"),
            1000,
            String::from("Description"),
            strings(&["evidence"]),
            strings(tags),
            caller,
            42,
        )
        .unwrap()
}

fn ids_of(events: &[HistoricalEvent]) -> Vec<u64> {
    events.iter().map(|event| event.id).collect()
}

fn assert_buckets_partition(registry: &HistoryProtocol) {
    let mut all: Vec<u64> = Vec::new();
    for timeline in [Timeline::Canonical, Timeline::Disputed, Timeline::Alternative] {
        for event in registry.get_events_by_timeline(timeline) {
            assert_eq!(event.timeline, timeline);
            all.push(event.id);
        }
    }
    all.sort();
    let expected: Vec<u64> = (1..=registry.event_count()).collect();
    assert_eq!(all, expected);
}

#[test]
fn ids_follow_submission_order_whoever_submits() {
    let mut registry = HistoryProtocol::new();
    assert_eq!(submit_tagged(&mut registry, account(1), &["A"]), 1);
    assert_eq!(submit_tagged(&mut registry, account(2), &["A"]), 2);
    assert_eq!(submit_tagged(&mut registry, account(1), &["A"]), 3);
    assert_eq!(submit_tagged(&mut registry, account(3), &["A"]), 4);
    assert_eq!(registry.event_count(), 4);
    for id in 1..=4u64 {
        assert_eq!(registry.get_event(id).unwrap().id, id);
    }
}

#[test]
fn refused_submission_takes_no_id() {
    let mut registry = HistoryProtocol::new();
    assert_eq!(submit_tagged(&mut registry, account(1), &["A"]), 1);
    let refused = registry.submit_event(
        String::new(),
        1,
        String::from("Description"),
        strings(&["evidence"]),
        strings(&["A"]),
        account(1),
        0,
    );
    assert_eq!(refused, Err(Error::InvalidEventData));
    assert_eq!(registry.event_count(), 1);
    assert_eq!(submit_tagged(&mut registry, account(1), &["A"]), 2);
}

#[test]
fn submission_is_refused_for_each_missing_part() {
    let mut registry = HistoryProtocol::new();
    let cases: Vec<(&str, &str, Vec<String>, Vec<String>)> = vec![
        ("", "d", strings(&["e"]), strings(&["t"])),
        ("t", "", strings(&["e"]), strings(&["t"])),
        ("t", "d", strings(&[]), strings(&["t"])),
        ("t", "d", strings(&["e"]), strings(&[])),
        ("t", "d", strings(&["e"]), strings(&["1", "2", "3", "4", "5", "6"])),
    ];
    for (title, description, evidence, tags) in cases {
        let result = registry.submit_event(
            String::from(title),
            1,
            String::from(description),
            evidence,
            tags,
            account(1),
            0,
        );
        assert_eq!(result, Err(Error::InvalidEventData));
        assert_eq!(registry.event_count(), 0);
        assert!(registry.get_event(1).is_none());
        assert_eq!(registry.get_events_by_timeline(Timeline::Disputed).len(), 0);
        assert_eq!(registry.get_user_events(account(1)).len(), 0);
    }
}

#[test]
fn submission_accepts_one_to_five_tags() {
    let mut registry = HistoryProtocol::new();
    assert_eq!(submit_tagged(&mut registry, account(1), &["1"]), 1);
    assert_eq!(submit_tagged(&mut registry, account(1), &["1", "2", "3", "4", "5"]), 2);
    assert_eq!(registry.get_event(2).unwrap().tags.len(), 5);
}

#[test]
fn submission_accepts_empty_strings_in_lists() {
    let mut registry = HistoryProtocol::new();
    let result = registry.submit_event(
        String::from("t"),
        1,
        String::from("d"),
        strings(&[""]),
        strings(&[""]),
        account(1),
        0,
    );
    assert_eq!(result, Ok(1));
}

#[test]
fn submission_records_caller_and_time() {
    let mut registry = HistoryProtocol::new();
    let id = registry
        .submit_event(
            String::from("t"),
            77,
            String::from("d"),
            strings(&["e"]),
            strings(&["x"]),
            account(9),
            123_456,
        )
        .unwrap();
    let event = registry.get_event(id).unwrap();
    assert_eq!(event.submitter, account(9));
    assert_eq!(event.created_at, 123_456);
    assert_eq!(event.date, 77);
    assert_eq!(event.timeline, Timeline::Disputed);
    assert_eq!(event.consensus_score, 0);
}

#[test]
fn duplicate_content_is_not_refused() {
    let mut registry = HistoryProtocol::new();
    assert_eq!(submit_tagged(&mut registry, account(1), &["A"]), 1);
    assert_eq!(submit_tagged(&mut registry, account(1), &["A"]), 2);
    assert_eq!(registry.get_user_events(account(1)).len(), 2);
}

#[test]
fn vote_on_unassigned_id_is_not_found() {
    let mut registry = HistoryProtocol::new();
    assert_eq!(registry.vote(0, true, account(1), 0), Err(Error::EventNotFound));
    assert_eq!(registry.vote(1, true, account(1), 0), Err(Error::EventNotFound));
    submit_tagged(&mut registry, account(1), &["A"]);
    submit_tagged(&mut registry, account(1), &["A"]);
    assert_eq!(registry.vote(0, true, account(1), 0), Err(Error::EventNotFound));
    assert_eq!(registry.vote(3, true, account(1), 0), Err(Error::EventNotFound));
    assert_eq!(registry.vote(u64::MAX, true, account(1), 0), Err(Error::EventNotFound));
    assert_eq!(registry.vote(1, true, account(1), 0), Ok(()));
    assert_eq!(registry.vote(2, true, account(1), 0), Ok(()));
    assert!(!registry.has_voted(0, account(1)));
    assert!(!registry.has_voted(3, account(1)));
}

#[test]
fn not_found_comes_before_already_voted() {
    let mut registry = HistoryProtocol::new();
    submit_tagged(&mut registry, account(1), &["A"]);
    registry.vote(1, true, account(1), 0).unwrap();
    assert_eq!(registry.vote(2, true, account(1), 0), Err(Error::EventNotFound));
    assert_eq!(registry.vote(1, true, account(1), 0), Err(Error::AlreadyVoted));
}

#[test]
fn second_vote_changes_nothing() {
    let mut registry = HistoryProtocol::new();
    let id = submit_tagged(&mut registry, account(1), &["A"]);
    registry.vote(id, false, account(1), 0).unwrap();
    registry.vote(id, true, account(2), 0).unwrap();
    let before = registry.get_event(id).unwrap();
    for support in [true, false] {
        assert_eq!(registry.vote(id, support, account(1), 9), Err(Error::AlreadyVoted));
        assert_eq!(registry.vote(id, support, account(2), 9), Err(Error::AlreadyVoted));
        let after = registry.get_event(id).unwrap();
        assert_eq!(after.support_votes, before.support_votes);
        assert_eq!(after.challenge_votes, before.challenge_votes);
        assert_eq!(after.consensus_score, before.consensus_score);
        assert_eq!(after.timeline, before.timeline);
    }
    assert_eq!(before.support_votes, 1);
    assert_eq!(before.challenge_votes, 1);
    assert_buckets_partition(&registry);
}

#[test]
fn one_voter_may_vote_on_several_events() {
    let mut registry = HistoryProtocol::new();
    submit_tagged(&mut registry, account(1), &["A"]);
    submit_tagged(&mut registry, account(1), &["A"]);
    assert_eq!(registry.vote(1, true, account(5), 0), Ok(()));
    assert_eq!(registry.vote(2, false, account(5), 0), Ok(()));
    assert_eq!(registry.get_event(1).unwrap().support_votes, 1);
    assert_eq!(registry.get_event(2).unwrap().challenge_votes, 1);
    assert_eq!(registry.get_event(2).unwrap().support_votes, 0);
}

#[test]
fn classification_holds_after_every_vote() {
    let mut registry = HistoryProtocol::new();
    let id = submit_tagged(&mut registry, account(1), &["A"]);
    let pattern = [true, true, true, false, false, true, false, false, false, false, false, false];
    let mut support = 0u32;
    let mut challenge = 0u32;
    for (i, vote) in pattern.iter().enumerate() {
        registry.vote(id, *vote, account(10 + i as u8), 0).unwrap();
        if *vote {
            support += 1;
        } else {
            challenge += 1;
        }
        let event = registry.get_event(id).unwrap();
        assert_eq!(event.support_votes, support);
        assert_eq!(event.challenge_votes, challenge);
        assert_eq!(u32::from(event.consensus_score), support * 100 / (support + challenge));
        assert_eq!(event.timeline == Timeline::Canonical, event.consensus_score >= 75);
        assert_eq!(event.timeline == Timeline::Alternative, event.consensus_score <= 25);
        assert_buckets_partition(&registry);
    }
}

#[test]
fn event_moves_across_categories_in_both_directions() {
    let mut registry = HistoryProtocol::new();
    let first = submit_tagged(&mut registry, account(1), &["A"]);
    let second = submit_tagged(&mut registry, account(1), &["A"]);
    registry.vote(first, true, account(1), 0).unwrap();
    assert_eq!(registry.get_event(first).unwrap().timeline, Timeline::Canonical);
    assert_eq!(ids_of(&registry.get_events_by_timeline(Timeline::Canonical)), vec![first]);
    assert_eq!(ids_of(&registry.get_events_by_timeline(Timeline::Disputed)), vec![second]);
    registry.vote(first, false, account(2), 0).unwrap();
    assert_eq!(registry.get_event(first).unwrap().timeline, Timeline::Disputed);
    assert_eq!(ids_of(&registry.get_events_by_timeline(Timeline::Canonical)), Vec::<u64>::new());
    assert_eq!(ids_of(&registry.get_events_by_timeline(Timeline::Disputed)), vec![second, first]);
    registry.vote(first, false, account(3), 0).unwrap();
    registry.vote(first, false, account(4), 0).unwrap();
    let event = registry.get_event(first).unwrap();
    assert_eq!(event.consensus_score, 25);
    assert_eq!(event.timeline, Timeline::Alternative);
    assert_eq!(ids_of(&registry.get_events_by_timeline(Timeline::Alternative)), vec![first]);
    assert_eq!(ids_of(&registry.get_events_by_timeline(Timeline::Disputed)), vec![second]);
    assert_buckets_partition(&registry);
}

#[test]
fn buckets_partition_ids_through_submissions_and_votes() {
    let mut registry = HistoryProtocol::new();
    assert_buckets_partition(&registry);
    for round in 0..6u8 {
        let id = submit_tagged(&mut registry, account(round), &["A"]);
        assert_buckets_partition(&registry);
        for voter in 0..round {
            registry.vote(id, voter % 3 != 0, account(voter), 0).unwrap();
            assert_buckets_partition(&registry);
        }
        if id > 1 {
            registry.vote(id - 1, round % 2 == 0, account(100 + round), 0).unwrap();
            assert_buckets_partition(&registry);
        }
    }
    assert_eq!(registry.event_count(), 6);
}

#[test]
fn three_supporters_make_an_event_canonical() {
    let mut registry = HistoryProtocol::new();
    let id = submit_tagged(&mut registry, account(1), &["Science", "Tech"]);
    for voter in [account(1), account(2), account(3)] {
        registry.vote(id, true, voter, 0).unwrap();
    }
    let event = registry.get_event(id).unwrap();
    assert_eq!(event.consensus_score, 100);
    assert_eq!(event.timeline, Timeline::Canonical);
    assert_eq!(ids_of(&registry.get_events_by_timeline(Timeline::Canonical)), vec![id]);
    assert!(!ids_of(&registry.get_events_by_timeline(Timeline::Disputed)).contains(&id));
}

#[test]
fn support_then_challenge_stays_disputed() {
    let mut registry = HistoryProtocol::new();
    let id = submit_tagged(&mut registry, account(1), &["A"]);
    registry.vote(id, true, account(1), 0).unwrap();
    registry.vote(id, false, account(2), 0).unwrap();
    let event = registry.get_event(id).unwrap();
    assert_eq!(event.consensus_score, 50);
    assert_eq!(event.timeline, Timeline::Disputed);
    assert_eq!(ids_of(&registry.get_events_by_timeline(Timeline::Disputed)), vec![id]);
}

#[test]
fn submission_without_tags_leaves_count() {
    let mut registry = HistoryProtocol::new();
    submit_tagged(&mut registry, account(1), &["A"]);
    let before = registry.event_count();
    let result = registry.submit_event(
        String::from("Title"),
        1,
        String::from("Description"),
        strings(&["evidence"]),
        Vec::new(),
        account(1),
        0,
    );
    assert_eq!(result, Err(Error::InvalidEventData));
    assert_eq!(registry.event_count(), before);
}

#[test]
fn tag_query_is_independent_of_timeline() {
    let mut registry = HistoryProtocol::new();
    let canonical = submit_tagged(&mut registry, account(1), &["Science", "Tech"]);
    let other = submit_tagged(&mut registry, account(1), &["Politics"]);
    let alternative = submit_tagged(&mut registry, account(2), &["Space", "Science"]);
    let disputed = submit_tagged(&mut registry, account(3), &["Science"]);
    registry.vote(canonical, true, account(1), 0).unwrap();
    registry.vote(alternative, false, account(1), 0).unwrap();
    registry.vote(other, true, account(1), 0).unwrap();
    let found = registry.get_events_by_tag(String::from("Science"));
    assert_eq!(ids_of(&found), vec![canonical, alternative, disputed]);
    assert_eq!(found[0].timeline, Timeline::Canonical);
    assert_eq!(found[1].timeline, Timeline::Alternative);
    assert_eq!(found[2].timeline, Timeline::Disputed);
}

#[test]
fn tag_query_gives_each_event_once() {
    let mut registry = HistoryProtocol::new();
    let id = submit_tagged(&mut registry, account(1), &["Science", "Tech", "Science"]);
    assert_eq!(ids_of(&registry.get_events_by_tag(String::from("Science"))), vec![id]);
    assert_eq!(ids_of(&registry.get_events_by_tag(String::from("Tech"))), vec![id]);
}

#[test]
fn tag_query_is_case_sensitive() {
    let mut registry = HistoryProtocol::new();
    submit_tagged(&mut registry, account(1), &["Science"]);
    assert_eq!(registry.get_events_by_tag(String::from("science")).len(), 0);
    assert_eq!(registry.get_events_by_tag(String::from("Scienc")).len(), 0);
    assert_eq!(registry.get_events_by_tag(String::from("Science ")).len(), 0);
    assert_eq!(registry.get_events_by_tag(String::from("Science")).len(), 1);
}

#[test]
fn tag_query_on_empty_registry() {
    let registry = HistoryProtocol::new();
    assert_eq!(registry.get_events_by_tag(String::from("Science")).len(), 0);
}

#[test]
fn user_events_come_in_submission_order() {
    let mut registry = HistoryProtocol::new();
    let a1 = submit_tagged(&mut registry, account(1), &["A"]);
    let b1 = submit_tagged(&mut registry, account(2), &["A"]);
    let a2 = submit_tagged(&mut registry, account(1), &["A"]);
    let a3 = submit_tagged(&mut registry, account(1), &["A"]);
    registry.vote(a2, true, account(7), 0).unwrap();
    assert_eq!(ids_of(&registry.get_user_events(account(1))), vec![a1, a2, a3]);
    assert_eq!(ids_of(&registry.get_user_events(account(2))), vec![b1]);
    assert_eq!(registry.get_user_events(account(1))[1].support_votes, 1);
    assert_eq!(registry.get_user_events(account(7)).len(), 0);
}

#[test]
fn voting_does_not_touch_other_events() {
    let mut registry = HistoryProtocol::new();
    let first = submit_tagged(&mut registry, account(1), &["A"]);
    let second = submit_tagged(&mut registry, account(2), &["B"]);
    registry.vote(first, true, account(3), 5).unwrap();
    let untouched = registry.get_event(second).unwrap();
    assert_eq!(untouched.support_votes, 0);
    assert_eq!(untouched.challenge_votes, 0);
    assert_eq!(untouched.consensus_score, 0);
    assert_eq!(untouched.timeline, Timeline::Disputed);
    assert!(!registry.has_voted(second, account(3)));
    let voted = registry.get_event(first).unwrap();
    assert_eq!(voted.title, "Title");
    assert_eq!(voted.tags, strings(&["A"]));
    assert_eq!(voted.submitter, account(1));
    assert_eq!(voted.created_at, 42);
}
