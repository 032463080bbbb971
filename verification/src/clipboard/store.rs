//! The store's bookkeeping: which entries a listing returns and which old entries
//! are evicted to keep the store within its caps.
use crate::clipboard::models::ClipboardEntry;
use vstd::prelude::*;

verus! {

/// The store never keeps more than this many entries.
pub const MAX_ENTRIES: usize = 1000;

/// The store never keeps more than this many bytes of entries.
pub const MAX_BYTES: u64 = 67108864;

/// The total size of `(id, size)` pairs.
pub open spec fn total_bytes(s: Seq<(u64, u64)>) -> nat
    decreases s.len(),
{
    if s.len() == 0 {
        0
    } else {
        total_bytes(s.drop_last()) + s.last().1 as nat
    }
}

/// The entries fit within both caps.
pub open spec fn fits(s: Seq<(u64, u64)>) -> bool {
    s.len() <= MAX_ENTRIES && total_bytes(s) <= MAX_BYTES
}

/// How many of the oldest entries (the front of `s`) must go for the rest to fit.
pub open spec fn evict_count(s: Seq<(u64, u64)>) -> nat
    decreases s.len(),
{
    if fits(s) || s.len() == 0 {
        0
    } else {
        1 + evict_count(s.drop_first())
    }
}

/// The ids of the first `k` entries.
pub open spec fn first_ids(s: Seq<(u64, u64)>, k: int) -> Seq<u64> {
    s.take(k).map_values(|p: (u64, u64)| p.0)
}

/// The size of a list is its first entry's size plus the size of the rest.
pub proof fn lemma_total_front(s: Seq<(u64, u64)>)
    requires
        s.len() > 0,
    ensures
        total_bytes(s) == s[0].1 + total_bytes(s.drop_first()),
    decreases s.len(),
{
    if s.len() > 1 {
        lemma_total_front(s.drop_last());
        assert(s.drop_last().drop_first() =~= s.drop_first().drop_last());
        assert(s.drop_last()[0] == s[0]);
        assert(s.drop_first().last() == s.last());
        assert(total_bytes(s.drop_first()) == total_bytes(s.drop_first().drop_last()) + s.drop_first().last().1);
    } else {
        assert(s.drop_first().len() == 0);
        assert(s.drop_last().len() == 0);
        assert(s.last() == s[0]);
        assert(total_bytes(s.drop_first()) == 0);
        assert(total_bytes(s.drop_last()) == 0);
    }
}

/// A prefix is never larger than the whole.
pub proof fn lemma_total_prefix(s: Seq<(u64, u64)>, i: int)
    requires
        0 <= i <= s.len(),
    ensures
        total_bytes(s.take(i)) <= total_bytes(s),
    decreases s.len() - i,
{
    if i < s.len() {
        lemma_total_prefix(s, i + 1);
        assert(s.take(i + 1).drop_last() =~= s.take(i));
    } else {
        assert(s.take(i) =~= s);
    }
}

/// Evicting `evict_count(s)` of the oldest entries is the least eviction that
/// leaves entries within both caps.
pub proof fn lemma_eviction_minimal(s: Seq<(u64, u64)>)
    ensures
        evict_count(s) <= s.len(),
        fits(s.skip(evict_count(s) as int)),
        forall|j: int| 0 <= j < evict_count(s) ==> !fits(#[trigger] s.skip(j)),
    decreases s.len(),
{
    if fits(s) || s.len() == 0 {
        assert(s.skip(0) =~= s);
    } else {
        lemma_eviction_minimal(s.drop_first());
        assert(s.skip(evict_count(s) as int) =~= s.drop_first().skip(evict_count(s.drop_first()) as int));
        assert forall|j: int| 0 <= j < evict_count(s) implies !fits(#[trigger] s.skip(j)) by {
            if j == 0 {
                assert(s.skip(0) =~= s);
            } else {
                assert(s.skip(j) =~= s.drop_first().skip(j - 1));
            }
        }
    }
}

/// The ids to delete, oldest first, so that the store fits its caps again; `s`
/// lists every entry as `(id, size)` in id order, which is age order.
pub fn evictions(s: &Vec<(u64, u64)>) -> (ids: Vec<u64>)
    requires
        total_bytes(s@) <= u64::MAX,
    ensures
        ids@ == first_ids(s@, evict_count(s@) as int),
{
    let n = s.len();
    let mut total: u64 = 0;
    for i in 0..n
        invariant
            n == s@.len(),
            total_bytes(s@) <= u64::MAX,
            total == total_bytes(s@.take(i as int)),
    {
        proof {
            assert(s@.take(i + 1).drop_last() =~= s@.take(i as int));
            lemma_total_prefix(s@, i + 1);
        }
        total = total + s[i].1;
    }
    proof {
        assert(s@.take(n as int) =~= s@);
    }
    let mut ids: Vec<u64> = Vec::new();
    if n <= MAX_ENTRIES && total <= MAX_BYTES {
        proof {
            assert(ids@ =~= first_ids(s@, 0));
        }
        return ids;
    }
    let mut remaining = n;
    proof {
        assert(s@.skip(0) =~= s@);
    }
    for i in 0..n
        invariant
            n == s@.len(),
            remaining == n - i,
            total == total_bytes(s@.skip(i as int)),
            ids@ == first_ids(s@, i as int),
            evict_count(s@) == i + evict_count(s@.skip(i as int)),
    {
        if remaining <= MAX_ENTRIES && total <= MAX_BYTES {
            proof {
                assert(fits(s@.skip(i as int)));
            }
            return ids;
        }
        proof {
            let t = s@.skip(i as int);
            lemma_total_front(t);
            assert(t[0] == s@[i as int]);
            assert(t.drop_first() =~= s@.skip(i + 1));
            assert(first_ids(s@, i + 1) =~= first_ids(s@, i as int).push(s@[i as int].0));
        }
        ids.push(s[i].0);
        remaining = remaining - 1;
        total = total - s[i].1;
    }
    proof {
        assert(s@.skip(n as int).len() == 0);
    }
    ids
}

/// The entries of the rows that decoded, in row order (rows that failed to
/// decode are skipped).
pub open spec fn decoded_entries(d: Seq<Option<ClipboardEntry>>) -> Seq<ClipboardEntry>
    decreases d.len(),
{
    if d.len() == 0 {
        seq![]
    } else {
        match d.last() {
            Some(e) => decoded_entries(d.drop_last()).push(e),
            None => decoded_entries(d.drop_last()),
        }
    }
}

/// At most the first `limit` of `s`.
pub open spec fn at_most(s: Seq<ClipboardEntry>, limit: nat) -> Seq<ClipboardEntry> {
    if s.len() <= limit {
        s
    } else {
        s.take(limit as int)
    }
}

/// What a listing returns, walking rows newest first: the first `limit` entries
/// that decode (all of them when fewer do).
pub open spec fn recent_from(d: Seq<Option<ClipboardEntry>>, limit: nat) -> Seq<ClipboardEntry> {
    at_most(decoded_entries(d), limit)
}

/// The entries of a listing (see `recent_from`); never more than `limit`.
pub fn take_recent(decoded: Vec<Option<ClipboardEntry>>, limit: usize) -> (r: Vec<ClipboardEntry>)
    ensures
        r@ == recent_from(decoded@, limit as nat),
        r@.len() <= limit,
{
    let ghost d = decoded@;
    let mut entries: Vec<ClipboardEntry> = Vec::new();
    proof {
        assert(d.take(0) =~= Seq::<Option<ClipboardEntry>>::empty());
        assert(entries@ =~= at_most(decoded_entries(d.take(0)), limit as nat));
    }
    for item in it: decoded
        invariant
            d == it.seq(),
            entries@ == at_most(decoded_entries(d.take(it.index() as int)), limit as nat),
    {
        let ghost i = it.index() as int;
        let ghost before = decoded_entries(d.take(i));
        proof {
            assert(d.take(i + 1).drop_last() =~= d.take(i));
            assert(d.take(i + 1).last() == item);
        }
        match item {
            Some(e) => {
                if entries.len() < limit {
                    entries.push(e);
                    proof {
                        assert(before.len() < limit);
                        assert(entries@ =~= before.push(e));
                    }
                } else {
                    proof {
                        assert(before.len() >= limit);
                        assert(before.push(e).take(limit as int) =~= before.take(limit as int));
                        assert(entries@ =~= at_most(before.push(e), limit as nat));
                    }
                }
            },
            None => {},
        }
    }
    proof {
        assert(d.take(d.len() as int) =~= d);
    }
    entries
}

} // verus!
