//! The tally and ranking model: one record per nominated candidate, an
//! atomic vote upsert, and a windowed, sorted, limited ranking query.
//!
//! The collection is modelled as a sequence of records in insertion order.
//! `record_vote` bumps the existing record of a triple or appends a fresh
//! one; `top` filters records created inside the trailing window, sorts them
//! by votes descending (ties keep insertion order, the store's natural
//! order), and answers the message ids of the first `n`.

use vstd::prelude::*;
use vstd::pervasive::VecAdditionalExecFns;

use crate::model::{Candidate, CandidateRecord, RankingRequest};
use crate::rank::{rank_top, top_spec};

verus! {

/// Seconds in one day.
pub const SECONDS_PER_DAY: i64 = 86400;

/// Index of the first record at or after `i` whose identity triple is `c`,
/// or -1 if there is none.
pub open spec fn find_candidate_from(s: Seq<CandidateRecord>, c: Candidate, i: int) -> int
    decreases s.len() - i,
{
    if i < 0 || i >= s.len() {
        -1
    } else if s[i].candidate == c {
        i
    } else {
        find_candidate_from(s, c, i + 1)
    }
}

/// Index of the first record for `c`, or -1 if `c` was never nominated.
pub open spec fn find_candidate(s: Seq<CandidateRecord>, c: Candidate) -> int {
    find_candidate_from(s, c, 0)
}

/// What the index returned by `find_candidate_from` means.
pub proof fn lemma_find_candidate_from(s: Seq<CandidateRecord>, c: Candidate, i: int)
    requires
        0 <= i <= s.len(),
    ensures
        find_candidate_from(s, c, i) == -1 || find_candidate_from(s, c, i) >= i,
        find_candidate_from(s, c, i) == -1 ==> forall|j: int|
            i <= j < s.len() ==> (#[trigger] s[j]).candidate != c,
        find_candidate_from(s, c, i) >= 0 ==> {
            let f = find_candidate_from(s, c, i);
            &&& i <= f < s.len()
            &&& s[f].candidate == c
            &&& forall|j: int| i <= j < f ==> (#[trigger] s[j]).candidate != c
        },
    decreases s.len() - i,
{
    if i < s.len() {
        lemma_find_candidate_from(s, c, i + 1);
    }
}

/// The record after one more vote: the counter grows by 1, saturating at
/// `i64::MAX`; the identity triple and the creation time are untouched.
pub open spec fn bumped(r: CandidateRecord) -> CandidateRecord {
    CandidateRecord {
        votes: if r.votes < i64::MAX {
            (r.votes + 1) as i64
        } else {
            r.votes
        },
        ..r
    }
}

/// The collection after recording one vote for `c` at time `now`: the
/// existing record of the triple is bumped, or a fresh record with one vote
/// and creation time `now` is appended.
pub open spec fn record_vote_spec(s: Seq<CandidateRecord>, c: Candidate, now: i64) -> Seq<
    CandidateRecord,
> {
    let i = find_candidate(s, c);
    if i >= 0 {
        s.update(i, bumped(s[i]))
    } else {
        s.push(CandidateRecord { candidate: c, votes: 1, created: now })
    }
}

/// No two records share an identity triple.
pub open spec fn unique_triples(s: Seq<CandidateRecord>) -> bool {
    forall|i: int, j: int|
        0 <= i < j < s.len() ==> (#[trigger] s[i]).candidate != (#[trigger] s[j]).candidate
}

/// Every record carries at least one vote.
pub open spec fn votes_positive(s: Seq<CandidateRecord>) -> bool {
    forall|i: int| 0 <= i < s.len() ==> (#[trigger] s[i]).votes >= 1
}

/// The persistent tally: at most one record per candidate triple.
pub struct Storage {
    records: Vec<CandidateRecord>,
}

impl View for Storage {
    type V = Seq<CandidateRecord>;

    closed spec fn view(&self) -> Seq<CandidateRecord> {
        self.records@
    }
}

impl Storage {
    /// The collection invariant: unique triples, each with a positive tally.
    pub open spec fn wf(self) -> bool {
        unique_triples(self@) && votes_positive(self@)
    }

    /// An empty tally.
    pub fn new() -> (s: Storage)
        ensures
            s@ == Seq::<CandidateRecord>::empty(),
            s.wf(),
    {
        Storage { records: Vec::new() }
    }

    /// The records as plain values, in insertion order.
    pub fn records(&self) -> (r: &Vec<CandidateRecord>)
        ensures
            r@ == self@,
    {
        &self.records
    }

    /// A tally owning the given records; callers supply the collection as it
    /// stands in the backing store, one record per triple.
    pub fn from_records(records: Vec<CandidateRecord>) -> (s: Storage)
        requires
            unique_triples(records@),
            votes_positive(records@),
        ensures
            s@ == records@,
            s.wf(),
    {
        Storage { records }
    }

    /// Records one nomination of `c` at time `now`: an atomic upsert that
    /// bumps the existing record of the triple or creates it with one vote.
    pub fn record_vote(&mut self, c: Candidate, now: i64)
        requires
            old(self).wf(),
        ensures
            final(self).wf(),
            final(self)@ == record_vote_spec(old(self)@, c, now),
    {
        let n = self.records.len();
        let mut i: usize = 0;
        while i < n
            invariant
                i <= n == self.records.len(),
                *self == *old(self),
                old(self).wf(),
                find_candidate(self@, c) == find_candidate_from(self@, c, i as int),
            decreases n - i,
        {
            if self.records[i].candidate == c {
                proof {
                    assert(find_candidate(self@, c) == i);
                }
                let r = self.records[i];
                let grown = if r.votes < i64::MAX {
                    r.votes + 1
                } else {
                    r.votes
                };
                self.records.set(i, CandidateRecord { votes: grown, ..r });
                proof {
                    assert(self@ == record_vote_spec(old(self)@, c, now));
                    assert forall|p: int, q: int| 0 <= p < q < self@.len() implies (
                    #[trigger] self@[p]).candidate != (#[trigger] self@[q]).candidate by {
                        assert(self@[p].candidate == old(self)@[p].candidate);
                        assert(self@[q].candidate == old(self)@[q].candidate);
                    }
                    assert forall|p: int| 0 <= p < self@.len() implies (
                    #[trigger] self@[p]).votes >= 1 by {
                        assert(old(self)@[p].votes >= 1);
                    }
                }
                return ;
            }
            i = i + 1;
        }
        proof {
            assert(find_candidate(self@, c) == -1);
            lemma_find_candidate_from(self@, c, 0);
        }
        self.records.push(CandidateRecord { candidate: c, votes: 1, created: now });
        proof {
            assert forall|p: int, q: int| 0 <= p < q < self@.len() implies (
            #[trigger] self@[p]).candidate != (#[trigger] self@[q]).candidate by {
                if q < old(self)@.len() {
                } else {
                    assert(old(self)@[p].candidate != c);
                }
            }
        }
    }

    /// Answers a ranking request: the message ids of the most-voted records
    /// created during the last `req.days` days, at most `req.top` of them,
    /// most voted first, ties in insertion order. Reads only; never mutates.
    pub fn top(&self, req: &RankingRequest, now: i64) -> (r: Vec<i64>)
        requires
            req.valid(),
        ensures
            r@ == top_spec(self@, req.top as int, req.days, now),
            r@.len() <= req.top,
    {
        rank_top(self.records.as_slice(), req, now)
    }
}

/// Number of records in `s` whose identity triple is `c`.
pub open spec fn count_matching(s: Seq<CandidateRecord>, c: Candidate) -> int
    decreases s.len(),
{
    if s.len() == 0 {
        0
    } else {
        count_matching(s.drop_last(), c) + if s.last().candidate == c {
            1int
        } else {
            0int
        }
    }
}

/// A collection without any record for `c` counts zero of them.
proof fn lemma_count_matching_none(s: Seq<CandidateRecord>, c: Candidate)
    requires
        forall|i: int| 0 <= i < s.len() ==> (#[trigger] s[i]).candidate != c,
    ensures
        count_matching(s, c) == 0,
    decreases s.len(),
{
    if s.len() > 0 {
        lemma_count_matching_none(s.drop_last(), c);
    }
}

/// With unique triples, a collection holding `c` at index `i` counts exactly
/// one record for `c`.
proof fn lemma_count_matching_one(s: Seq<CandidateRecord>, c: Candidate, i: int)
    requires
        unique_triples(s),
        0 <= i < s.len(),
        s[i].candidate == c,
    ensures
        count_matching(s, c) == 1,
    decreases s.len(),
{
    if i == s.len() - 1 {
        assert forall|j: int| 0 <= j < s.drop_last().len() implies (
        #[trigger] s.drop_last()[j]).candidate != c by {
            assert(s[j].candidate != s[i].candidate);
        }
        lemma_count_matching_none(s.drop_last(), c);
    } else {
        assert(s.last().candidate != c);
        assert forall|p: int, q: int| 0 <= p < q < s.drop_last().len() implies (
        #[trigger] s.drop_last()[p]).candidate != (#[trigger] s.drop_last()[q]).candidate by {
            assert(s[p].candidate != s[q].candidate);
        }
        lemma_count_matching_one(s.drop_last(), c, i);
    }
}

/// Structural idempotence of the vote upsert: however often a candidate has
/// been nominated, its tally holds exactly one record for it, triples stay
/// unique, and its counter has just grown by one vote (from zero records to
/// one vote on the first nomination; saturating at `i64::MAX`).
pub proof fn lemma_one_record_per_triple(s: Seq<CandidateRecord>, c: Candidate, now: i64)
    requires
        unique_triples(s),
    ensures
        unique_triples(record_vote_spec(s, c, now)),
        count_matching(record_vote_spec(s, c, now), c) == 1,
        find_candidate(s, c) >= 0 ==> record_vote_spec(s, c, now)[find_candidate(s, c)].votes
            == bumped(s[find_candidate(s, c)]).votes && record_vote_spec(s, c, now)[find_candidate(
            s,
            c,
        )].created == s[find_candidate(s, c)].created,
        find_candidate(s, c) == -1 ==> record_vote_spec(s, c, now) == s.push(
            CandidateRecord { candidate: c, votes: 1, created: now },
        ),
{
    lemma_find_candidate_from(s, c, 0);
    let f = find_candidate(s, c);
    let s2 = record_vote_spec(s, c, now);
    if f >= 0 {
        assert forall|p: int, q: int| 0 <= p < q < s2.len() implies (#[trigger] s2[p]).candidate
            != (#[trigger] s2[q]).candidate by {
            assert(s2[p].candidate == s[p].candidate);
            assert(s2[q].candidate == s[q].candidate);
        }
        lemma_count_matching_one(s2, c, f);
    } else {
        assert forall|p: int, q: int| 0 <= p < q < s2.len() implies (#[trigger] s2[p]).candidate
            != (#[trigger] s2[q]).candidate by {
            if q < s.len() {
            } else {
                assert(s[p].candidate != c);
            }
        }
        lemma_count_matching_one(s2, c, s.len() as int);
    }
}

/// The collection after the same candidate is nominated once per entry of
/// `times`, in order.
pub open spec fn record_votes_spec(
    s: Seq<CandidateRecord>,
    c: Candidate,
    times: Seq<i64>,
) -> Seq<CandidateRecord>
    decreases times.len(),
{
    if times.len() == 0 {
        s
    } else {
        record_votes_spec(record_vote_spec(s, c, times[0]), c, times.drop_first())
    }
}

/// Repeated nominations of a candidate that sits at index `i`, and nowhere
/// else, only grow that record's counter: once per nomination.
proof fn lemma_repeat_bumps(s: Seq<CandidateRecord>, c: Candidate, times: Seq<i64>, i: int)
    requires
        0 <= i < s.len(),
        s[i].candidate == c,
        forall|j: int| 0 <= j < s.len() && j != i ==> (#[trigger] s[j]).candidate != c,
        0 <= s[i].votes,
        s[i].votes + times.len() <= i64::MAX,
    ensures
        record_votes_spec(s, c, times) == s.update(
            i,
            CandidateRecord { votes: (s[i].votes + times.len()) as i64, ..s[i] },
        ),
    decreases times.len(),
{
    lemma_find_candidate_from(s, c, 0);
    let f = find_candidate(s, c);
    if times.len() == 0 {
        assert(s.update(i, CandidateRecord { votes: (s[i].votes + 0) as i64, ..s[i] }) =~= s);
    } else {
        assert(f == i) by {
            if f == -1 {
                assert(s[i].candidate != c);
            } else if f != i {
                assert(s[f].candidate != c);
            }
        }
        let s1 = record_vote_spec(s, c, times[0]);
        assert(s1 == s.update(i, bumped(s[i])));
        assert(s1[i].votes == s[i].votes + 1);
        assert forall|j: int| 0 <= j < s1.len() && j != i implies (#[trigger] s1[j]).candidate
            != c by {
            assert(s1[j] == s[j]);
        }
        lemma_repeat_bumps(s1, c, times.drop_first(), i);
        assert(record_votes_spec(s, c, times) == s1.update(
            i,
            CandidateRecord { votes: (s1[i].votes + times.drop_first().len()) as i64, ..s1[i] },
        ));
        assert(s1.update(
            i,
            CandidateRecord { votes: (s1[i].votes + times.drop_first().len()) as i64, ..s1[i] },
        ) =~= s.update(i, CandidateRecord { votes: (s[i].votes + times.len()) as i64, ..s[i] }));
    }
}

/// The tally of repetition: nominating an absent candidate once per entry of
/// `times` appends exactly one record, whose counter equals the number of
/// nominations and whose creation time is that of the first nomination.
pub proof fn lemma_repeated_nominations(s: Seq<CandidateRecord>, c: Candidate, times: Seq<i64>)
    requires
        find_candidate(s, c) == -1,
        1 <= times.len() <= i64::MAX,
    ensures
        record_votes_spec(s, c, times) == s.push(
            CandidateRecord { candidate: c, votes: times.len() as i64, created: times[0] },
        ),
{
    lemma_find_candidate_from(s, c, 0);
    let first = CandidateRecord { candidate: c, votes: 1, created: times[0] };
    let s1 = record_vote_spec(s, c, times[0]);
    assert(s1 == s.push(first));
    let i = s.len() as int;
    assert forall|j: int| 0 <= j < s1.len() && j != i implies (#[trigger] s1[j]).candidate
        != c by {
        assert(s1[j] == s[j]);
    }
    lemma_repeat_bumps(s1, c, times.drop_first(), i);
    assert(s1.update(
        i,
        CandidateRecord { votes: (1 + times.drop_first().len()) as i64, ..first },
    ) =~= s.push(CandidateRecord { candidate: c, votes: times.len() as i64, created: times[0] }));
}

} // verus!
