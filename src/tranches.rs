use vstd::prelude::*;

verus! {

/// One deposit's tranche of shares, for the lock-in period.
#[derive(Clone, Copy, Debug, PartialEq, Eq, Structural)]
pub struct DepositInfo {
    /// When the deposit was made.
    pub ts: i64,
    /// Shares the deposit bought that are still held.
    pub shares: u128,
}

impl DepositInfo {
    pub fn new(ts: i64, shares: u128) -> (r: DepositInfo)
        ensures
            r == (DepositInfo { ts, shares }),
    {
        DepositInfo { ts, shares }
    }
}

/// Shares held over all tranches.
pub open spec fn tranche_sum(s: Seq<DepositInfo>) -> int
    decreases s.len(),
{
    if s.len() == 0 {
        0
    } else {
        tranche_sum(s.drop_last()) + s.last().shares
    }
}

/// Whether a tranche made at `ts` has served `lock_in_period` at `now`.
pub open spec fn unlocked(ts: i64, now: i64, lock_in_period: u64) -> bool {
    ts + lock_in_period <= now
}

/// Shares of the tranches that have served the lock-in period at `now`.
pub open spec fn unlocked_sum(s: Seq<DepositInfo>, now: i64, lock_in_period: u64) -> int
    decreases s.len(),
{
    if s.len() == 0 {
        0
    } else {
        unlocked_sum(s.drop_last(), now, lock_in_period) + if unlocked(
            s.last().ts,
            now,
            lock_in_period,
        ) {
            s.last().shares as int
        } else {
            0
        }
    }
}

/// Tranches in order of time, oldest first.
pub open spec fn sorted_by_ts(s: Seq<DepositInfo>) -> bool {
    forall|i: int, j: int| 0 <= i < j < s.len() ==> s[i].ts <= s[j].ts
}

/// Where a tranche made at `ts` goes: after every tranche made no later.
pub open spec fn insert_pos(s: Seq<DepositInfo>, ts: i64) -> int
    decreases s.len(),
{
    if s.len() == 0 {
        0
    } else if s.last().ts <= ts {
        s.len() as int
    } else {
        insert_pos(s.drop_last(), ts)
    }
}

/// The tranches after `n` shares are taken from them, oldest first:
/// emptied tranches leave, and the first one not emptied keeps the rest.
pub open spec fn fifo_remove(s: Seq<DepositInfo>, n: int) -> Seq<DepositInfo>
    decreases s.len(),
{
    if n <= 0 || s.len() == 0 {
        s
    } else if s[0].shares <= n {
        fifo_remove(s.drop_first(), n - s[0].shares)
    } else {
        s.update(0, DepositInfo { ts: s[0].ts, shares: (s[0].shares - n) as u128 })
    }
}

pub proof fn lemma_tranche_sum_first(s: Seq<DepositInfo>)
    requires
        s.len() > 0,
    ensures
        tranche_sum(s) == s[0].shares + tranche_sum(s.drop_first()),
    decreases s.len(),
{
    if s.len() > 1 {
        lemma_tranche_sum_first(s.drop_last());
        assert(s.drop_last().drop_first() =~= s.drop_first().drop_last());
        assert(s.drop_first().last() == s.last());
        assert(tranche_sum(s.drop_first()) == tranche_sum(s.drop_first().drop_last())
            + s.drop_first().last().shares);
    } else {
        assert(s.drop_first().len() == 0);
        assert(s.drop_last().len() == 0);
        assert(tranche_sum(s.drop_first()) == 0);
        assert(tranche_sum(s.drop_last()) == 0);
        assert(s.last() == s[0]);
    }
}

pub proof fn lemma_prefix_sum_le(s: Seq<DepositInfo>, i: int)
    requires
        0 <= i <= s.len(),
    ensures
        tranche_sum(s.subrange(0, i)) <= tranche_sum(s),
    decreases s.len(),
{
    if i == s.len() {
        assert(s.subrange(0, i) =~= s);
    } else {
        lemma_prefix_sum_le(s.drop_last(), i);
        assert(s.drop_last().subrange(0, i) =~= s.subrange(0, i));
    }
}

pub proof fn lemma_unlocked_at_most_all(s: Seq<DepositInfo>, now: i64, lock_in_period: u64)
    ensures
        0 <= unlocked_sum(s, now, lock_in_period) <= tranche_sum(s),
    decreases s.len(),
{
    if s.len() > 0 {
        lemma_unlocked_at_most_all(s.drop_last(), now, lock_in_period);
    }
}

pub proof fn lemma_sum_prefix_step(s: Seq<DepositInfo>, i: int, now: i64, lock_in_period: u64)
    requires
        0 <= i < s.len(),
    ensures
        tranche_sum(s.subrange(0, i + 1)) == tranche_sum(s.subrange(0, i)) + s[i].shares,
        unlocked_sum(s.subrange(0, i + 1), now, lock_in_period) == unlocked_sum(
            s.subrange(0, i),
            now,
            lock_in_period,
        ) + if unlocked(s[i].ts, now, lock_in_period) {
            s[i].shares as int
        } else {
            0
        },
{
    assert(s.subrange(0, i + 1).drop_last() =~= s.subrange(0, i));
}

pub proof fn lemma_insert_sum(s: Seq<DepositInfo>, i: int, x: DepositInfo)
    requires
        0 <= i <= s.len(),
    ensures
        tranche_sum(s.insert(i, x)) == tranche_sum(s) + x.shares,
    decreases s.len(),
{
    if i == s.len() {
        assert(s.insert(i, x).drop_last() =~= s);
    } else {
        lemma_insert_sum(s.drop_last(), i, x);
        assert(s.insert(i, x).drop_last() =~= s.drop_last().insert(i, x));
    }
}

pub proof fn lemma_insert_pos(s: Seq<DepositInfo>, ts: i64)
    requires
        sorted_by_ts(s),
    ensures
        0 <= insert_pos(s, ts) <= s.len(),
        forall|j: int| 0 <= j < insert_pos(s, ts) ==> s[j].ts <= ts,
        forall|j: int| insert_pos(s, ts) <= j < s.len() ==> s[j].ts > ts,
    decreases s.len(),
{
    if s.len() > 0 {
        let t = s.drop_last();
        assert(sorted_by_ts(t));
        if s.last().ts > ts {
            lemma_insert_pos(t, ts);
            assert forall|j: int| 0 <= j < insert_pos(s, ts) implies s[j].ts <= ts by {
                assert(s[j] == t[j]);
            }
            assert forall|j: int| insert_pos(s, ts) <= j < s.len() implies s[j].ts > ts by {
                if j < s.len() - 1 {
                    assert(s[j] == t[j]);
                }
            }
        } else {
            assert forall|j: int| 0 <= j < insert_pos(s, ts) implies s[j].ts <= ts by {
                if j < s.len() - 1 {
                    assert(s[j].ts <= s[s.len() - 1].ts);
                }
            }
        }
    }
}

pub proof fn lemma_insert_sorted(s: Seq<DepositInfo>, x: DepositInfo)
    requires
        sorted_by_ts(s),
    ensures
        sorted_by_ts(s.insert(insert_pos(s, x.ts), x)),
{
    lemma_insert_pos(s, x.ts);
    let p = insert_pos(s, x.ts);
    let t = s.insert(p, x);
    assert forall|i: int, j: int| 0 <= i < j < t.len() implies t[i].ts <= t[j].ts by {
        if j < p {
            assert(t[i] == s[i] && t[j] == s[j]);
        } else if j == p {
            assert(t[i] == s[i]);
        } else if i < p {
            assert(t[i] == s[i] && t[j] == s[j - 1]);
        } else if i == p {
            assert(t[j] == s[j - 1]);
        } else {
            assert(t[i] == s[i - 1] && t[j] == s[j - 1]);
        }
    }
}

pub proof fn lemma_fifo_remove(s: Seq<DepositInfo>, n: int)
    requires
        0 <= n <= tranche_sum(s),
    ensures
        tranche_sum(fifo_remove(s, n)) == tranche_sum(s) - n,
        sorted_by_ts(s) ==> sorted_by_ts(fifo_remove(s, n)),
    decreases s.len(),
{
    if n > 0 && s.len() > 0 {
        lemma_tranche_sum_first(s);
        if s[0].shares <= n {
            lemma_fifo_remove(s.drop_first(), n - s[0].shares);
        } else {
            let t = s.update(0, DepositInfo { ts: s[0].ts, shares: (s[0].shares - n) as u128 });
            lemma_tranche_sum_first(t);
            assert(t.drop_first() =~= s.drop_first());
        }
    }
}

} // verus!
