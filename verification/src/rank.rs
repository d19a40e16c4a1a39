//! The ranking query: keep the records created inside the trailing window,
//! sort them by votes descending — ties keep insertion order, the store's
//! natural order — and answer the message ids of the first `n`.

use vstd::prelude::*;

use crate::model::{CandidateRecord, RankingRequest};
use crate::storage::SECONDS_PER_DAY;

verus! {

/// Does `r` fall inside the half-open window `[from, now)`?
pub open spec fn in_window(r: CandidateRecord, from: int, now: int) -> bool {
    from <= r.created < now
}

/// The records of `s`, in order, created inside `[from, now)`.
pub open spec fn filter_window(s: Seq<CandidateRecord>, from: int, now: int) -> Seq<
    CandidateRecord,
>
    decreases s.len(),
{
    if s.len() == 0 {
        Seq::empty()
    } else {
        let rest = filter_window(s.drop_last(), from, now);
        if in_window(s.last(), from, now) {
            rest.push(s.last())
        } else {
            rest
        }
    }
}

/// Insert `r` behind every record with at least as many votes, so that
/// records with equal votes keep their earlier-first order.
pub open spec fn insert_ranked(s: Seq<CandidateRecord>, r: CandidateRecord) -> Seq<CandidateRecord>
    decreases s.len(),
{
    if s.len() == 0 {
        seq![r]
    } else if s.first().votes >= r.votes {
        seq![s.first()] + insert_ranked(s.drop_first(), r)
    } else {
        seq![r] + s
    }
}

/// Stable sort by votes, descending.
pub open spec fn rank_sort(s: Seq<CandidateRecord>) -> Seq<CandidateRecord>
    decreases s.len(),
{
    if s.len() == 0 {
        Seq::empty()
    } else {
        insert_ranked(rank_sort(s.drop_last()), s.last())
    }
}

/// Votes never increase along `s`.
pub open spec fn sorted_by_votes(s: Seq<CandidateRecord>) -> bool {
    forall|i: int, j: int| 0 <= i <= j < s.len() ==> s[i].votes >= s[j].votes
}

/// Lower bound of the ranking window, `now` minus `days` days, clamped to
/// the representable range of timestamps.
pub open spec fn window_start(now: i64, days: i64) -> int {
    if now - days * SECONDS_PER_DAY >= i64::MIN {
        now - days * SECONDS_PER_DAY
    } else {
        i64::MIN as int
    }
}

/// The ranked in-window records, most voted first.
pub open spec fn ranked_spec(s: Seq<CandidateRecord>, days: i64, now: i64) -> Seq<
    CandidateRecord,
> {
    rank_sort(filter_window(s, window_start(now, days), now as int))
}

/// The message ids answered for a ranking request: ids of the first `n`
/// ranked records.
pub open spec fn top_spec(s: Seq<CandidateRecord>, n: int, days: i64, now: i64) -> Seq<i64> {
    let ranked = ranked_spec(s, days, now);
    let cnt = if n < 0 {
        0
    } else if n > ranked.len() {
        ranked.len() as int
    } else {
        n
    };
    Seq::new(cnt as nat, |i: int| ranked[i].candidate.message_id)
}

/// Inserting at the first position whose record has fewer votes than `r`
/// is exactly `insert_ranked`.
proof fn lemma_insert_ranked_at(s: Seq<CandidateRecord>, r: CandidateRecord, j: int)
    requires
        0 <= j <= s.len(),
        forall|k: int| 0 <= k < j ==> (#[trigger] s[k]).votes >= r.votes,
        j < s.len() ==> s[j].votes < r.votes,
    ensures
        insert_ranked(s, r) =~= s.insert(j, r),
    decreases j,
{
    if j == 0 {
        if s.len() == 0 {
            assert(insert_ranked(s, r) =~= s.insert(0, r));
        } else {
            assert(s.first().votes < r.votes);
            assert(insert_ranked(s, r) =~= s.insert(0, r));
        }
    } else {
        assert(s[0].votes >= r.votes);
        lemma_insert_ranked_at(s.drop_first(), r, j - 1);
        assert(insert_ranked(s, r) =~= s.insert(j, r));
    }
}

/// The records of `insert_ranked(s, r)` are those of `s` plus `r`.
proof fn lemma_insert_ranked_contains(s: Seq<CandidateRecord>, r: CandidateRecord)
    ensures
        forall|x: CandidateRecord|
            #[trigger] insert_ranked(s, r).contains(x) <==> (s.contains(x) || x == r),
    decreases s.len(),
{
    if s.len() == 0 {
        assert forall|x: CandidateRecord| #[trigger]
            insert_ranked(s, r).contains(x) <==> (s.contains(x) || x == r) by {
            assert(insert_ranked(s, r) =~= seq![r]);
            if insert_ranked(s, r).contains(x) {
                assert(x == r);
            }
            if x == r {
                assert(insert_ranked(s, r)[0] == x);
            }
        }
    } else if s.first().votes >= r.votes {
        lemma_insert_ranked_contains(s.drop_first(), r);
        assert forall|x: CandidateRecord| #[trigger]
            insert_ranked(s, r).contains(x) <==> (s.contains(x) || x == r) by {
            let t = seq![s.first()] + insert_ranked(s.drop_first(), r);
            assert(insert_ranked(s, r) == t);
            if t.contains(x) {
                let i = choose|i: int| 0 <= i < t.len() && t[i] == x;
                if i == 0 {
                    assert(s[0] == x);
                } else {
                    assert(insert_ranked(s.drop_first(), r)[i - 1] == x);
                    assert(insert_ranked(s.drop_first(), r).contains(x));
                    if s.drop_first().contains(x) {
                        let k = choose|k: int|
                            0 <= k < s.drop_first().len() && s.drop_first()[k] == x;
                        assert(s[k + 1] == x);
                    }
                }
            }
            if s.contains(x) {
                let i = choose|i: int| 0 <= i < s.len() && s[i] == x;
                if i == 0 {
                    assert(t[0] == x);
                } else {
                    assert(s.drop_first()[i - 1] == x);
                    assert(s.drop_first().contains(x));
                    assert(insert_ranked(s.drop_first(), r).contains(x));
                    let k = choose|k: int|
                        0 <= k < insert_ranked(s.drop_first(), r).len() && insert_ranked(
                            s.drop_first(),
                            r,
                        )[k] == x;
                    assert(t[k + 1] == x);
                }
            }
            if x == r {
                assert(insert_ranked(s.drop_first(), r).contains(x));
                let k = choose|k: int|
                    0 <= k < insert_ranked(s.drop_first(), r).len() && insert_ranked(
                        s.drop_first(),
                        r,
                    )[k] == x;
                assert(t[k + 1] == x);
            }
        }
    } else {
        assert forall|x: CandidateRecord| #[trigger]
            insert_ranked(s, r).contains(x) <==> (s.contains(x) || x == r) by {
            let t = seq![r] + s;
            assert(insert_ranked(s, r) == t);
            if t.contains(x) {
                let i = choose|i: int| 0 <= i < t.len() && t[i] == x;
                if i == 0 {
                } else {
                    assert(s[i - 1] == x);
                }
            }
            if s.contains(x) {
                let i = choose|i: int| 0 <= i < s.len() && s[i] == x;
                assert(t[i + 1] == x);
            }
            if x == r {
                assert(t[0] == x);
            }
        }
    }
}

/// `insert_ranked` keeps the ranking sorted.
proof fn lemma_insert_ranked_sorted(s: Seq<CandidateRecord>, r: CandidateRecord)
    requires
        sorted_by_votes(s),
    ensures
        sorted_by_votes(insert_ranked(s, r)),
    decreases s.len(),
{
    if s.len() == 0 {
    } else if s.first().votes >= r.votes {
        assert forall|i: int, j: int|
            0 <= i <= j < s.drop_first().len() implies s.drop_first()[i].votes
            >= s.drop_first()[j].votes by {
            assert(s[i + 1].votes >= s[j + 1].votes);
        }
        lemma_insert_ranked_sorted(s.drop_first(), r);
        lemma_insert_ranked_contains(s.drop_first(), r);
        let t = seq![s.first()] + insert_ranked(s.drop_first(), r);
        assert(insert_ranked(s, r) == t);
        assert forall|i: int, j: int| 0 <= i <= j < t.len() implies t[i].votes >= t[j].votes by {
            let sub = insert_ranked(s.drop_first(), r);
            if i == 0 && j > 0 {
                assert(sub[j - 1] == t[j]);
                assert(sub.contains(sub[j - 1]));
                if s.drop_first().contains(sub[j - 1]) {
                    let k = choose|k: int|
                        0 <= k < s.drop_first().len() && s.drop_first()[k] == sub[j - 1];
                    assert(s[0].votes >= s[k + 1].votes);
                } else {
                    assert(sub[j - 1] == r);
                }
            } else if i > 0 {
                assert(sub[i - 1].votes >= sub[j - 1].votes);
            }
        }
    } else {
        let t = seq![r] + s;
        assert(insert_ranked(s, r) == t);
        assert forall|i: int, j: int| 0 <= i <= j < t.len() implies t[i].votes >= t[j].votes by {
            if i == 0 && j > 0 {
                assert(s[0].votes >= s[j - 1].votes);
            } else if i > 0 {
                assert(s[i - 1].votes >= s[j - 1].votes);
            }
        }
    }
}

/// Sorting always yields a ranking in which votes never increase.
pub proof fn lemma_rank_sort_sorted(s: Seq<CandidateRecord>)
    ensures
        sorted_by_votes(rank_sort(s)),
    decreases s.len(),
{
    if s.len() > 0 {
        lemma_rank_sort_sorted(s.drop_last());
        lemma_insert_ranked_sorted(rank_sort(s.drop_last()), s.last());
    }
}

/// The ranked records are exactly the in-window records of `s`.
pub proof fn lemma_rank_sort_contains(s: Seq<CandidateRecord>)
    ensures
        forall|x: CandidateRecord| #[trigger] rank_sort(s).contains(x) <==> s.contains(x),
    decreases s.len(),
{
    if s.len() == 0 {
    } else {
        lemma_rank_sort_contains(s.drop_last());
        lemma_insert_ranked_contains(rank_sort(s.drop_last()), s.last());
        assert forall|x: CandidateRecord| #[trigger]
            rank_sort(s).contains(x) <==> s.contains(x) by {
            if rank_sort(s).contains(x) {
                if s.drop_last().contains(x) {
                    let k = choose|k: int| 0 <= k < s.drop_last().len() && s.drop_last()[k] == x;
                    assert(s[k] == x);
                } else {
                    assert(x == s.last());
                    assert(s[s.len() - 1] == x);
                }
            }
            if s.contains(x) {
                let i = choose|i: int| 0 <= i < s.len() && s[i] == x;
                if i < s.len() - 1 {
                    assert(s.drop_last()[i] == x);
                    assert(s.drop_last().contains(x));
                } else {
                    assert(x == s.last());
                }
            }
        }
    }
}

/// Every record kept by the window filter comes from `s` and lies inside
/// the window.
pub proof fn lemma_filter_window_members(s: Seq<CandidateRecord>, from: int, now: int)
    ensures
        forall|x: CandidateRecord| #[trigger]
            filter_window(s, from, now).contains(x) ==> s.contains(x) && in_window(x, from, now),
    decreases s.len(),
{
    if s.len() > 0 {
        lemma_filter_window_members(s.drop_last(), from, now);
        assert forall|x: CandidateRecord| #[trigger]
            filter_window(s, from, now).contains(x) implies s.contains(x) && in_window(
            x,
            from,
            now,
        ) by {
            let rest = filter_window(s.drop_last(), from, now);
            if in_window(s.last(), from, now) {
                let i = choose|i: int|
                    0 <= i < rest.push(s.last()).len() && rest.push(s.last())[i] == x;
                if i < rest.len() {
                    assert(rest[i] == x);
                    assert(rest.contains(x));
                    let k = choose|k: int| 0 <= k < s.drop_last().len() && s.drop_last()[k] == x;
                    assert(s[k] == x);
                } else {
                    assert(x == s.last());
                    assert(s[s.len() - 1] == x);
                }
            } else {
                assert(rest.contains(x));
                let k = choose|k: int| 0 <= k < s.drop_last().len() && s.drop_last()[k] == x;
                assert(s[k] == x);
            }
        }
    }
}

/// Some record of `s`, created inside the ranking window, carries `id`.
pub open spec fn answered_from_store(s: Seq<CandidateRecord>, days: i64, now: i64, id: i64) -> bool {
    exists|j: int|
        0 <= j < s.len() && (#[trigger] s[j]).candidate.message_id == id && in_window(
            s[j],
            window_start(now, days),
            now as int,
        )
}

/// The ranking never answers more ids than asked for, and every answered id
/// names a stored record created inside the window.
pub proof fn lemma_top_window(s: Seq<CandidateRecord>, n: int, days: i64, now: i64)
    ensures
        top_spec(s, n, days, now).len() <= (if n < 0 {
            0
        } else {
            n
        }),
        forall|i: int| #![trigger top_spec(s, n, days, now)[i]]
            0 <= i < top_spec(s, n, days, now).len() ==> answered_from_store(
                s,
                days,
                now,
                top_spec(s, n, days, now)[i],
            ),
{
    let from = window_start(now, days);
    let ranked = ranked_spec(s, days, now);
    lemma_filter_window_members(s, from, now as int);
    lemma_rank_sort_contains(filter_window(s, from, now as int));
    assert forall|i: int| #![trigger top_spec(s, n, days, now)[i]]
        0 <= i < top_spec(s, n, days, now).len() implies answered_from_store(
        s,
        days,
        now,
        top_spec(s, n, days, now)[i],
    ) by {
        assert(ranked.contains(ranked[i]));
        assert(s.contains(ranked[i]) && in_window(ranked[i], from, now as int));
        let j = choose|j: int| 0 <= j < s.len() && s[j] == ranked[i];
        assert(s[j].candidate.message_id == top_spec(s, n, days, now)[i]);
        assert(answered_from_store(s, days, now, top_spec(s, n, days, now)[i]));
    }
}

/// The ranking the ids are drawn from is sorted by votes, descending.
pub proof fn lemma_top_sorted(s: Seq<CandidateRecord>, days: i64, now: i64)
    ensures
        sorted_by_votes(ranked_spec(s, days, now)),
{
    lemma_rank_sort_sorted(filter_window(s, window_start(now, days), now as int));
}

/// Answers a ranking request against `records`: ids of the most-voted
/// records created during the last `req.days` days, at most `req.top` ids,
/// most voted first, ties in insertion order.
pub fn rank_top(records: &[CandidateRecord], req: &RankingRequest, now: i64) -> (r: Vec<i64>)
    requires
        req.valid(),
    ensures
        r@ == top_spec(records@, req.top as int, req.days, now),
        r@.len() <= req.top,
{
    let s = records;
    let ghost from_spec: int = window_start(now, req.days);
    let wide: i128 = (now as i128) - (req.days as i128) * (SECONDS_PER_DAY as i128);
    let from: i64 = if wide < i64::MIN as i128 {
        i64::MIN
    } else {
        wide as i64
    };
    proof {
        assert(from as int == from_spec);
    }
    let mut picked: Vec<CandidateRecord> = Vec::new();
    let mut i: usize = 0;
    while i < s.len()
        invariant
            i <= s@.len(),
            picked@ == filter_window(s@.take(i as int), from as int, now as int),
        decreases s@.len() - i,
    {
        let rec = s[i];
        proof {
            assert(s@.take(i + 1).drop_last() =~= s@.take(i as int));
            assert(s@.take(i + 1).last() == s@[i as int]);
        }
        if from <= rec.created && rec.created < now {
            picked.push(rec);
        }
        i = i + 1;
    }
    proof {
        assert(s@.take(s@.len() as int) =~= s@);
    }
    let mut ranked: Vec<CandidateRecord> = Vec::new();
    let mut i: usize = 0;
    while i < picked.len()
        invariant
            i <= picked@.len(),
            ranked@ == rank_sort(picked@.take(i as int)),
        decreases picked@.len() - i,
    {
        let rec = picked[i];
        let mut j: usize = 0;
        while j < ranked.len() && ranked[j].votes >= rec.votes
            invariant
                j <= ranked@.len(),
                forall|k: int| 0 <= k < j ==> (#[trigger] ranked@[k]).votes >= rec.votes,
            decreases ranked@.len() - j,
        {
            j = j + 1;
        }
        proof {
            lemma_insert_ranked_at(ranked@, rec, j as int);
            assert(picked@.take(i + 1).drop_last() =~= picked@.take(i as int));
            assert(picked@.take(i + 1).last() == picked@[i as int]);
        }
        ranked.insert(j, rec);
        i = i + 1;
    }
    proof {
        assert(picked@.take(picked@.len() as int) =~= picked@);
    }
    let limit: usize = req.top as usize;
    let mut out: Vec<i64> = Vec::new();
    let mut i: usize = 0;
    while i < ranked.len() && i < limit
        invariant
            i <= ranked@.len(),
            i <= limit,
            limit == req.top as int,
            out@.len() == i,
            forall|k: int| 0 <= k < i ==> out@[k] == (#[trigger] ranked@[k]).candidate.message_id,
        decreases ranked@.len() - i,
    {
        out.push(ranked[i].candidate.message_id);
        i = i + 1;
    }
    proof {
        assert(ranked@ == ranked_spec(s@, req.days, now));
        assert(out@ =~= top_spec(s@, req.top as int, req.days, now));
    }
    out
}

} // verus!
