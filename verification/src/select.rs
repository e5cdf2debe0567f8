//! Selection of the recent agent sessions.
//!
//! Out of all recorded sessions, keep those whose `started_at` lies after the
//! cutoff (the query time minus the trailing window), order them by
//! `started_at` with the newest first, and cap the result at
//! [`RESULT_LIMIT`] records.

use vstd::prelude::*;
use crate::agent::AgentSession;
use crate::order::{lex_lt, lex_ge, str_lex_lt};
use crate::order::{lemma_lex_lt_asymmetric, lemma_lex_ge_transitive};
use vstd::seq_lib::lemma_multiset_commutative;

verus! {

/// Upper bound on the number of records a query returns.
pub const RESULT_LIMIT: usize = 20;

/// The session started after the cutoff, so it lies within the window.
pub open spec fn within_window(cutoff: Seq<char>, s: AgentSession) -> bool {
    lex_lt(cutoff, s.started_at@)
}

/// The subsequence of `rows`, in input order, whose `started_at` lies after
/// the cutoff.
pub open spec fn qualifying(rows: Seq<AgentSession>, cutoff: Seq<char>) -> Seq<AgentSession>
    decreases rows.len(),
{
    if rows.len() == 0 {
        Seq::empty()
    } else {
        let rest = qualifying(rows.drop_last(), cutoff);
        if within_window(cutoff, rows.last()) {
            rest.push(rows.last())
        } else {
            rest
        }
    }
}

/// Insert `x` into a sequence ordered by descending `started_at`, in front of
/// the first record that started strictly earlier; among equal start times
/// the records already present keep their place in front of `x`.
pub open spec fn insert_desc(x: AgentSession, s: Seq<AgentSession>) -> Seq<AgentSession>
    decreases s.len(),
{
    if s.len() == 0 {
        seq![x]
    } else if lex_ge(x.started_at@, s[0].started_at@) {
        seq![x] + s
    } else {
        seq![s[0]] + insert_desc(x, s.drop_first())
    }
}

/// Stable insertion sort by descending `started_at`: records with equal start
/// times keep their input order.
pub open spec fn sort_desc(s: Seq<AgentSession>) -> Seq<AgentSession>
    decreases s.len(),
{
    if s.len() == 0 {
        Seq::empty()
    } else {
        insert_desc(s[0], sort_desc(s.drop_first()))
    }
}

/// Ordered by descending `started_at`: no record starts strictly earlier than
/// a later-listed one.
pub open spec fn sorted_desc(s: Seq<AgentSession>) -> bool {
    forall|i: int, j: int|
        0 <= i < j < s.len() ==> lex_ge(#[trigger] s[i].started_at@, #[trigger] s[j].started_at@)
}

/// At most the first `RESULT_LIMIT` records.
pub open spec fn capped(s: Seq<AgentSession>) -> Seq<AgentSession> {
    if s.len() <= RESULT_LIMIT {
        s
    } else {
        s.take(RESULT_LIMIT as int)
    }
}

/// The whole selection: the qualifying records, newest first, capped.
pub open spec fn recent_selection(rows: Seq<AgentSession>, cutoff: Seq<char>) -> Seq<AgentSession> {
    capped(sort_desc(qualifying(rows, cutoff)))
}

/// Keeps the records whose `started_at` lies after `cutoff`, in input order.
pub fn filter_within_window(rows: Vec<AgentSession>, cutoff: &str) -> (r: Vec<AgentSession>)
    ensures
        r@ == qualifying(rows@, cutoff@),
{
    let ghost orig = rows@;
    let mut rows = rows;
    let mut out: Vec<AgentSession> = Vec::new();
    proof {
        assert(orig.take(0) =~= Seq::<AgentSession>::empty());
    }
    while rows.len() > 0
        invariant
            rows@.len() <= orig.len(),
            rows@ == orig.skip((orig.len() - rows@.len()) as int),
            out@ == qualifying(orig.take((orig.len() - rows@.len()) as int), cutoff@),
        decreases rows@.len(),
    {
        let ghost k = orig.len() - rows@.len() + 1;
        let x = rows.remove(0);
        proof {
            assert(x == orig[k - 1]);
            assert(rows@ =~= orig.skip(k as int));
            assert(orig.take(k as int).drop_last() =~= orig.take(k - 1));
            assert(orig.take(k as int).last() == orig[k - 1]);
        }
        if str_lex_lt(cutoff, x.started_at.as_str()) {
            out.push(x);
        }
    }
    proof {
        assert(orig.take(orig.len() as int) =~= orig);
    }
    out
}

/// Inserts `x` into a vector ordered by descending `started_at`.
fn insert_sorted(x: AgentSession, sorted: Vec<AgentSession>) -> (r: Vec<AgentSession>)
    ensures
        r@ == insert_desc(x, sorted@),
    decreases sorted@.len(),
{
    let ghost s0 = sorted@;
    let mut v = sorted;
    if v.len() == 0 {
        v.push(x);
        proof {
            assert(v@ =~= seq![x]);
        }
        v
    } else if !str_lex_lt(x.started_at.as_str(), v[0].started_at.as_str()) {
        v.insert(0, x);
        proof {
            assert(v@ =~= seq![x] + s0);
        }
        v
    } else {
        let head = v.remove(0);
        proof {
            assert(v@ =~= s0.drop_first());
        }
        let mut rest = insert_sorted(x, v);
        rest.insert(0, head);
        proof {
            assert(rest@ =~= seq![head] + insert_desc(x, s0.drop_first()));
        }
        rest
    }
}

/// Orders the records by descending `started_at`, stably.
pub fn sort_by_started_desc(rows: Vec<AgentSession>) -> (r: Vec<AgentSession>)
    ensures
        r@ == sort_desc(rows@),
{
    let ghost orig = rows@;
    let mut rows = rows;
    let mut acc: Vec<AgentSession> = Vec::new();
    proof {
        assert(orig.skip(orig.len() as int) =~= Seq::<AgentSession>::empty());
    }
    while rows.len() > 0
        invariant
            rows@.len() <= orig.len(),
            rows@ == orig.take(rows@.len() as int),
            acc@ == sort_desc(orig.skip(rows@.len() as int)),
        decreases rows@.len(),
    {
        let ghost k = rows@.len();
        let x_opt = rows.pop();
        let x = x_opt.unwrap();
        proof {
            assert(x == orig[k - 1]);
            assert(rows@ =~= orig.take(k - 1));
            assert(orig.skip(k - 1).drop_first() =~= orig.skip(k as int));
            assert(orig.skip(k - 1)[0] == orig[k - 1]);
        }
        acc = insert_sorted(x, acc);
    }
    proof {
        assert(orig.skip(0) =~= orig);
    }
    acc
}

/// Drops everything past the first `RESULT_LIMIT` records.
pub fn cap_to_limit(rows: Vec<AgentSession>) -> (r: Vec<AgentSession>)
    ensures
        r@ == capped(rows@),
{
    let ghost orig = rows@;
    let mut rows = rows;
    if rows.len() > RESULT_LIMIT {
        rows.truncate(RESULT_LIMIT);
        proof {
            assert(rows@ =~= orig.take(RESULT_LIMIT as int));
        }
    }
    rows
}

/// The records started within the window, newest first, at most
/// `RESULT_LIMIT` of them.
pub fn select_recent(rows: Vec<AgentSession>, cutoff: &str) -> (r: Vec<AgentSession>)
    ensures
        r@ == recent_selection(rows@, cutoff@),
{
    cap_to_limit(sort_by_started_desc(filter_within_window(rows, cutoff)))
}

/// Inserting a record adds it to the contents and grows the length by one.
proof fn lemma_insert_desc_multiset(x: AgentSession, s: Seq<AgentSession>)
    ensures
        insert_desc(x, s).len() == s.len() + 1,
        insert_desc(x, s).to_multiset() == s.to_multiset().insert(x),
    decreases s.len(),
{
    broadcast use vstd::seq_lib::group_to_multiset_ensures;
    broadcast use vstd::multiset::group_multiset_axioms;

    if s.len() == 0 {
        assert(seq![x] =~= Seq::<AgentSession>::empty().push(x));
        assert(insert_desc(x, s).to_multiset() =~= s.to_multiset().insert(x));
    } else if lex_ge(x.started_at@, s[0].started_at@) {
        lemma_multiset_commutative(seq![x], s);
        assert(seq![x] =~= Seq::<AgentSession>::empty().push(x));
        assert(insert_desc(x, s).to_multiset() =~= s.to_multiset().insert(x));
    } else {
        let rest = insert_desc(x, s.drop_first());
        lemma_insert_desc_multiset(x, s.drop_first());
        lemma_multiset_commutative(seq![s[0]], rest);
        lemma_multiset_commutative(seq![s[0]], s.drop_first());
        assert(seq![s[0]] =~= Seq::<AgentSession>::empty().push(s[0]));
        assert(s =~= seq![s[0]] + s.drop_first());
        assert(insert_desc(x, s).to_multiset() =~= s.to_multiset().insert(x));
    }
}

/// Insertion keeps the descending order.
proof fn lemma_insert_desc_sorted(x: AgentSession, s: Seq<AgentSession>)
    requires
        sorted_desc(s),
    ensures
        sorted_desc(insert_desc(x, s)),
    decreases s.len(),
{
    broadcast use vstd::seq_lib::group_to_multiset_ensures;
    broadcast use vstd::multiset::group_multiset_axioms;

    if s.len() == 0 {
    } else if lex_ge(x.started_at@, s[0].started_at@) {
        let r = seq![x] + s;
        assert forall|i: int, j: int| 0 <= i < j < r.len() implies lex_ge(
            #[trigger] r[i].started_at@,
            #[trigger] r[j].started_at@,
        ) by {
            if i == 0 {
                if j > 1 {
                    lemma_lex_ge_transitive(
                        x.started_at@,
                        s[0].started_at@,
                        s[j - 1].started_at@,
                    );
                }
            }
        }
    } else {
        let s1 = s.drop_first();
        let r1 = insert_desc(x, s1);
        assert forall|i: int, j: int| 0 <= i < j < s1.len() implies lex_ge(
            #[trigger] s1[i].started_at@,
            #[trigger] s1[j].started_at@,
        ) by {
            assert(s1[i] == s[i + 1]);
            assert(s1[j] == s[j + 1]);
        }
        lemma_insert_desc_sorted(x, s1);
        lemma_insert_desc_multiset(x, s1);
        lemma_lex_lt_asymmetric(x.started_at@, s[0].started_at@);
        let r = seq![s[0]] + r1;
        assert forall|i: int, j: int| 0 <= i < j < r.len() implies lex_ge(
            #[trigger] r[i].started_at@,
            #[trigger] r[j].started_at@,
        ) by {
            if i == 0 {
                let y = r1[j - 1];
                assert(r1.contains(y));
                assert(r1.to_multiset().count(y) > 0);
                if y == x {
                    assert(lex_ge(s[0].started_at@, x.started_at@));
                } else {
                    assert(s1.to_multiset().count(y) > 0);
                    assert(s1.contains(y));
                    let k = choose|k: int| 0 <= k < s1.len() && s1[k] == y;
                    assert(s[k + 1] == y);
                    assert(lex_ge(s[0].started_at@, y.started_at@));
                }
            }
        }
    }
}

/// Sorting reorders the records: the result is ordered newest first and holds
/// exactly the input records.
pub proof fn lemma_sort_desc_ensures(s: Seq<AgentSession>)
    ensures
        sorted_desc(sort_desc(s)),
        sort_desc(s).to_multiset() == s.to_multiset(),
        sort_desc(s).len() == s.len(),
    decreases s.len(),
{
    broadcast use vstd::seq_lib::group_to_multiset_ensures;
    broadcast use vstd::multiset::group_multiset_axioms;

    if s.len() == 0 {
    } else {
        let s1 = s.drop_first();
        lemma_sort_desc_ensures(s1);
        lemma_insert_desc_sorted(s[0], sort_desc(s1));
        lemma_insert_desc_multiset(s[0], sort_desc(s1));
        assert(s =~= seq![s[0]] + s1);
        lemma_multiset_commutative(seq![s[0]], s1);
        assert(seq![s[0]] =~= Seq::<AgentSession>::empty().push(s[0]));
        assert(sort_desc(s).to_multiset() =~= s.to_multiset());
    }
}

/// Every qualifying record lies within the window.
pub proof fn lemma_qualifying_within(rows: Seq<AgentSession>, cutoff: Seq<char>)
    ensures
        forall|i: int|
            0 <= i < qualifying(rows, cutoff).len() ==> within_window(
                cutoff,
                #[trigger] qualifying(rows, cutoff)[i],
            ),
    decreases rows.len(),
{
    if rows.len() > 0 {
        lemma_qualifying_within(rows.drop_last(), cutoff);
        let q = qualifying(rows, cutoff);
        let rest = qualifying(rows.drop_last(), cutoff);
        assert forall|i: int| 0 <= i < q.len() implies within_window(
            cutoff,
            #[trigger] q[i],
        ) by {
            if within_window(cutoff, rows.last()) {
                assert(q == rest.push(rows.last()));
                if i < rest.len() {
                    assert(q[i] == rest[i]);
                } else {
                    assert(q[i] == rows.last());
                }
            } else {
                assert(q == rest);
            }
        }
    }
}

/// Law: every selected record started within the window; a record whose
/// `started_at` is at or before the cutoff is never returned.
pub proof fn lemma_selection_within_window(rows: Seq<AgentSession>, cutoff: Seq<char>)
    ensures
        forall|i: int|
            0 <= i < recent_selection(rows, cutoff).len() ==> within_window(
                cutoff,
                #[trigger] recent_selection(rows, cutoff)[i],
            ),
{
    broadcast use vstd::seq_lib::group_to_multiset_ensures;
    broadcast use vstd::multiset::group_multiset_axioms;

    let q = qualifying(rows, cutoff);
    let srt = sort_desc(q);
    let sel = recent_selection(rows, cutoff);
    lemma_qualifying_within(rows, cutoff);
    lemma_sort_desc_ensures(q);
    assert forall|i: int| 0 <= i < sel.len() implies within_window(
        cutoff,
        #[trigger] sel[i],
    ) by {
        let y = sel[i];
        assert(y == srt[i]);
        assert(srt.contains(y));
        assert(srt.to_multiset().count(y) > 0);
        assert(q.to_multiset().count(y) > 0);
        assert(q.contains(y));
        let k = choose|k: int| 0 <= k < q.len() && q[k] == y;
        assert(within_window(cutoff, q[k]));
    }
}

/// Law: the selection is ordered by `started_at`, newest first.
pub proof fn lemma_selection_sorted(rows: Seq<AgentSession>, cutoff: Seq<char>)
    ensures
        sorted_desc(recent_selection(rows, cutoff)),
{
    lemma_sort_desc_ensures(qualifying(rows, cutoff));
}

/// Law: the selection holds as many records as qualify, up to the limit.
pub proof fn lemma_selection_len(rows: Seq<AgentSession>, cutoff: Seq<char>)
    ensures
        qualifying(rows, cutoff).len() <= RESULT_LIMIT ==> recent_selection(rows, cutoff).len()
            == qualifying(rows, cutoff).len(),
        qualifying(rows, cutoff).len() > RESULT_LIMIT ==> recent_selection(rows, cutoff).len()
            == RESULT_LIMIT,
{
    lemma_sort_desc_ensures(qualifying(rows, cutoff));
}

/// Law: when at most the limit qualify, the selection holds exactly the
/// qualifying records, only reordered.
pub proof fn lemma_selection_complete_when_few(rows: Seq<AgentSession>, cutoff: Seq<char>)
    requires
        qualifying(rows, cutoff).len() <= RESULT_LIMIT,
    ensures
        recent_selection(rows, cutoff).to_multiset() == qualifying(rows, cutoff).to_multiset(),
{
    lemma_sort_desc_ensures(qualifying(rows, cutoff));
}

/// Law: when more than the limit qualify, exactly the limit are returned,
/// they and the left-over records together are the qualifying records, and no
/// left-over record started later than a returned one.
pub proof fn lemma_selection_newest_when_many(rows: Seq<AgentSession>, cutoff: Seq<char>)
    requires
        qualifying(rows, cutoff).len() > RESULT_LIMIT,
    ensures
        recent_selection(rows, cutoff).len() == RESULT_LIMIT,
        recent_selection(rows, cutoff).to_multiset().add(
            sort_desc(qualifying(rows, cutoff)).skip(RESULT_LIMIT as int).to_multiset(),
        ) == qualifying(rows, cutoff).to_multiset(),
        forall|i: int, j: int|
            0 <= i < recent_selection(rows, cutoff).len() && 0 <= j < sort_desc(
                qualifying(rows, cutoff),
            ).skip(RESULT_LIMIT as int).len() ==> lex_ge(
                #[trigger] recent_selection(rows, cutoff)[i].started_at@,
                #[trigger] sort_desc(qualifying(rows, cutoff)).skip(RESULT_LIMIT as int)[j].started_at@,
            ),
{
    broadcast use vstd::seq_lib::group_to_multiset_ensures;
    broadcast use vstd::multiset::group_multiset_axioms;

    let q = qualifying(rows, cutoff);
    let srt = sort_desc(q);
    let sel = recent_selection(rows, cutoff);
    let rest = srt.skip(RESULT_LIMIT as int);
    lemma_sort_desc_ensures(q);
    assert(srt =~= sel + rest);
    lemma_multiset_commutative(sel, rest);
    assert(sel.to_multiset().add(rest.to_multiset()) =~= q.to_multiset());
    assert forall|i: int, j: int|
        0 <= i < sel.len() && 0 <= j < rest.len() implies lex_ge(
        #[trigger] sel[i].started_at@,
        #[trigger] rest[j].started_at@,
    ) by {
        assert(sel[i] == srt[i]);
        assert(rest[j] == srt[RESULT_LIMIT + j]);
    }
}

} // verus!
