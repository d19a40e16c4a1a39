use topbot::model::{Candidate, RankingRequest};
use topbot::storage::Storage;

const DAY: i64 = 86400;

fn cand(message_id: i64, user_id: i64, group_id: i64) -> Candidate {
    Candidate {
        message_id,
        user_id,
        group_id,
    }
}

fn req(top: i64, days: i64) -> RankingRequest {
    RankingRequest { top, days }
}

#[test]
fn repeated_votes_share_one_record() {
    let mut s = Storage::new();
    let c = cand(42, 7, 1);
    s.record_vote(c, 100);
    s.record_vote(c, 200);
    s.record_vote(c, 300);
    let records = s.records();
    assert_eq!(records.len(), 1);
    assert_eq!(records[0].candidate, c);
    assert_eq!(records[0].votes, 3);
    // `created` stays the timestamp of the first nomination.
    assert_eq!(records[0].created, 100);
}

#[test]
fn distinct_triples_get_distinct_records() {
    let mut s = Storage::new();
    s.record_vote(cand(42, 7, 1), 100);
    s.record_vote(cand(43, 7, 1), 100);
    s.record_vote(cand(42, 8, 1), 100);
    s.record_vote(cand(42, 7, 2), 100);
    assert_eq!(s.records().len(), 4);
    for r in s.records().iter() {
        assert_eq!(r.votes, 1);
    }
}

#[test]
fn top_returns_at_most_n() {
    let mut s = Storage::new();
    for i in 0..4 {
        s.record_vote(cand(i, 1, 1), 1000);
    }
    let ids = s.top(&req(2, 1), 2000);
    assert_eq!(ids.len(), 2);
    let ids = s.top(&req(5, 1), 2000);
    assert_eq!(ids.len(), 4);
}

#[test]
fn top_keeps_only_the_window() {
    let mut s = Storage::new();
    let now = 10 * DAY;
    s.record_vote(cand(1, 1, 1), now - 2 * DAY); // too old for a 1-day window
    s.record_vote(cand(2, 1, 1), now - DAY); // at the lower bound: kept
    s.record_vote(cand(3, 1, 1), now - 1); // just inside: kept
    s.record_vote(cand(4, 1, 1), now); // the window is half-open: dropped
    let ids = s.top(&req(5, 1), now);
    assert_eq!(ids, vec![2, 3]);
}

#[test]
fn top_sorts_by_votes_descending() {
    let mut s = Storage::new();
    s.record_vote(cand(1, 1, 1), 100);
    for _ in 0..3 {
        s.record_vote(cand(2, 1, 1), 100);
    }
    for _ in 0..2 {
        s.record_vote(cand(3, 1, 1), 100);
    }
    let ids = s.top(&req(5, 365), 200);
    assert_eq!(ids, vec![2, 3, 1]);
}

#[test]
fn ties_keep_insertion_order() {
    let mut s = Storage::new();
    s.record_vote(cand(9, 1, 1), 100);
    s.record_vote(cand(4, 1, 1), 100);
    s.record_vote(cand(6, 1, 1), 100);
    let ids = s.top(&req(5, 365), 200);
    assert_eq!(ids, vec![9, 4, 6]);
}

#[test]
fn empty_window_is_a_valid_outcome() {
    let mut s = Storage::new();
    assert_eq!(s.top(&req(5, 365), 200), Vec::<i64>::new());
    s.record_vote(cand(1, 1, 1), 100);
    // All records older than the window.
    assert_eq!(s.top(&req(5, 1), 100 + 2 * DAY), Vec::<i64>::new());
}

#[test]
fn vote_counter_saturates_at_the_limit() {
    let mut s = Storage::new();
    let records = vec![topbot::model::CandidateRecord {
        candidate: cand(1, 1, 1),
        votes: i64::MAX,
        created: 100,
    }];
    let mut s2 = Storage::from_records(records);
    s2.record_vote(cand(1, 1, 1), 200);
    assert_eq!(s2.records()[0].votes, i64::MAX);
    // And an ordinary tally just counts.
    s.record_vote(cand(1, 1, 1), 100);
    s.record_vote(cand(1, 1, 1), 150);
    assert_eq!(s.records()[0].votes, 2);
}
