//! The daemon's answers: the clipboard history it reports (newest first, one
//! entry per id, recently pasted entries bumped to the front) and its replies.
use crate::clipboard::models::{meta_views, now_micros, ClipboardEntry, EntryMeta, EntryMetaView};
use crate::protocol::{DaemonRequest, DaemonResponse};
use crate::config::opt_view;
use crate::search::{clone_items, item_views, LauncherItem};
use crate::text::{chars_of, concat_chars, decimal, decimal_u64, string_from};
use std::collections::HashMap;
use vstd::prelude::*;

verus! {

/// Some entry of `s` has id `id`.
pub open spec fn has_id(s: Seq<EntryMetaView>, id: u64) -> bool {
    exists|i: int| 0 <= i < s.len() && #[trigger] s[i].id == id
}

/// No id occurs twice.
pub open spec fn ids_distinct(s: Seq<EntryMetaView>) -> bool {
    forall|i: int, j: int| 0 <= i < j < s.len() ==> #[trigger] s[i].id != #[trigger] s[j].id
}

/// Timestamps never increase along `s`.
pub open spec fn newest_first(s: Seq<EntryMetaView>) -> bool {
    forall|i: int, j: int| 0 <= i < j < s.len() ==> #[trigger] s[i].timestamp >= #[trigger] s[j].timestamp
}

/// `e` is the last entry of `c` with its id (later entries override earlier ones).
pub open spec fn is_latest(c: Seq<EntryMetaView>, e: EntryMetaView) -> bool {
    exists|i: int| 0 <= i < c.len() && c[i] == e && forall|j: int| i < j < c.len() ==> #[trigger] c[j].id != e.id
}

/// A history reply for the candidates `c` (stored entries, then bumped ones) and
/// `limit`: at most `limit` entries, one per id, each the latest with its id,
/// newest first, and no left-out entry newer than the oldest one shown (entries
/// are only left out when the limit is reached).
pub open spec fn history_ok(c: Seq<EntryMetaView>, r: Seq<EntryMetaView>, limit: nat) -> bool {
    &&& r.len() <= limit
    &&& ids_distinct(r)
    &&& newest_first(r)
    &&& forall|k: int| 0 <= k < r.len() ==> is_latest(c, #[trigger] r[k])
    &&& forall|e: EntryMetaView| #[trigger] is_latest(c, e) && !has_id(r, e.id) ==> r.len() == limit && (limit
        > 0 ==> e.timestamp <= r[limit - 1].timestamp)
}

/// Two latest entries with the same id are the same entry.
pub proof fn lemma_latest_unique(c: Seq<EntryMetaView>, x: EntryMetaView, y: EntryMetaView)
    requires
        is_latest(c, x),
        is_latest(c, y),
        x.id == y.id,
    ensures
        x == y,
{
    let i = choose|i: int| 0 <= i < c.len() && c[i] == x && forall|j: int| i < j < c.len() ==> #[trigger] c[j].id != x.id;
    let k = choose|k: int| 0 <= k < c.len() && c[k] == y && forall|j: int| k < j < c.len() ==> #[trigger] c[j].id != y.id;
    if i < k {
        assert(c[k].id != x.id);
    } else if k < i {
        assert(c[i].id != y.id);
    }
}

/// Deduplication state: distinct ids, each the latest in the prefix `cp`, every
/// id of `cp` present.
pub open spec fn dedup_ok(cp: Seq<EntryMetaView>, d: Seq<EntryMetaView>) -> bool {
    &&& ids_distinct(d)
    &&& forall|k: int| 0 <= k < d.len() ==> is_latest(cp, #[trigger] d[k])
    &&& forall|id: u64| has_id(cp, id) ==> has_id(d, id)
}

/// `has_id` after one more entry.
proof fn lemma_has_id_push(cp: Seq<EntryMetaView>, ev: EntryMetaView, id: u64)
    ensures
        has_id(cp.push(ev), id) <==> has_id(cp, id) || ev.id == id,
{
    let cn = cp.push(ev);
    if has_id(cp, id) {
        let w = choose|w: int| 0 <= w < cp.len() && #[trigger] cp[w].id == id;
        assert(cn[w] == cp[w]);
    }
    if ev.id == id {
        assert(cn[cp.len() as int] == ev);
    }
    if has_id(cn, id) && !(ev.id == id) {
        let w = choose|w: int| 0 <= w < cn.len() && #[trigger] cn[w].id == id;
        assert(w < cp.len());
        assert(cp[w] == cn[w]);
    }
}

/// The latest entry with an id stays the latest after an entry with another id.
proof fn lemma_latest_push(cp: Seq<EntryMetaView>, ev: EntryMetaView, x: EntryMetaView)
    ensures
        is_latest(cp.push(ev), ev),
        is_latest(cp, x) && x.id != ev.id ==> is_latest(cp.push(ev), x),
{
    let cn = cp.push(ev);
    assert(cn[cp.len() as int] == ev);
    if is_latest(cp, x) && x.id != ev.id {
        let i = choose|i: int| 0 <= i < cp.len() && cp[i] == x && forall|j: int| i < j < cp.len() ==> #[trigger] cp[j].id != x.id;
        assert(cn[i] == x);
        assert forall|j: int| i < j < cn.len() implies #[trigger] cn[j].id != x.id by {
            if j < cp.len() {
                assert(cn[j] == cp[j]);
            }
        }
    }
}

/// One entry per id: the latest with that id, keyed by id in a `HashMap` (later
/// entries replace earlier ones), read back in the map's key order.
fn dedup(all: Vec<EntryMeta>) -> (d: Vec<EntryMeta>)
    ensures
        dedup_ok(meta_views(all@), meta_views(d@)),
{
    let ghost c = meta_views(all@);
    let mut by_id: HashMap<u64, EntryMeta> = HashMap::new();
    for e in it: all
        invariant
            c == meta_views(it.seq()),
            forall|id: u64| #[trigger] by_id@.contains_key(id) <==> has_id(c.take(it.index() as int), id),
            forall|id: u64|
                #[trigger] by_id@.contains_key(id) ==> by_id@[id].id == id && is_latest(
                    c.take(it.index() as int),
                    by_id@[id]@,
                ),
    {
        let ghost i = it.index() as int;
        let ghost cp = c.take(i);
        let ghost ev = e@;
        let ghost old_map = by_id@;
        proof {
            assert(c.take(i + 1) =~= cp.push(ev));
        }
        by_id.insert(e.id, e);
        proof {
            assert forall|id: u64| #[trigger] by_id@.contains_key(id) <==> has_id(cp.push(ev), id) by {
                lemma_has_id_push(cp, ev, id);
            }
            assert forall|id: u64| #[trigger] by_id@.contains_key(id) implies by_id@[id].id == id
                && is_latest(cp.push(ev), by_id@[id]@) by {
                lemma_latest_push(cp, ev, old_map[id]@);
            }
        }
    }
    proof {
        assert(c.take(c.len() as int) =~= c);
    }
    let ghost m = by_id@;
    let mut d: Vec<EntryMeta> = Vec::new();
    for k in it: by_id.keys()
        invariant
            m == by_id@,
            forall|id: u64| #[trigger] m.contains_key(id) <==> has_id(c, id),
            forall|id: u64| #[trigger] m.contains_key(id) ==> m[id].id == id && is_latest(c, m[id]@),
            it.seq().unref().to_set() == m.dom(),
            it.seq().no_duplicates(),
            d.len() == it.index(),
            forall|j: int| 0 <= j < it.index() ==> (#[trigger] d@[j])@ == m[*it.seq()[j]]@,
            ids_distinct(meta_views(d@)),
            forall|j: int| 0 <= j < d.len() ==> is_latest(c, #[trigger] meta_views(d@)[j]),
            forall|id: u64|
                #[trigger] m.contains_key(id) && !has_id(meta_views(d@), id) ==> exists|j: int|
                    it.index() <= j < it.seq().len() && *it.seq()[j] == id,
    {
        let ghost i = it.index() as int;
        let ghost ks = it.seq();
        let ghost dv = meta_views(d@);
        proof {
            assert(ks.unref()[i] == *ks[i]);
            assert(ks.unref().to_set().contains(*k));
        }
        match by_id.get(k) {
            Some(v) => {
                let e = v.clone();
                d.push(e);
                proof {
                    let nd = meta_views(d@);
                    assert(nd =~= dv.push(m[*k]@));
                    assert forall|a: int, b: int| 0 <= a < b < nd.len() implies #[trigger] nd[a].id
                        != #[trigger] nd[b].id by {
                        if b == i {
                            assert(d@[a]@ == m[*ks[a]]@);
                            assert(ks.unref()[a] == *ks[a]);
                            assert(ks.unref().to_set().contains(*ks[a]));
                            assert(ks[a] != ks[i]);
                        }
                    }
                    assert forall|id: u64| #[trigger] m.contains_key(id) && !has_id(nd, id) implies exists|j: int|
                        i + 1 <= j < ks.len() && *ks[j] == id by {
                        assert(nd[i] == m[*k]@);
                        if !has_id(dv, id) {
                            let j = choose|j: int| i <= j < ks.len() && *ks[j] == id;
                            assert(j != i);
                        } else {
                            let w = choose|w: int| 0 <= w < dv.len() && #[trigger] dv[w].id == id;
                            assert(nd[w] == dv[w]);
                        }
                    }
                }
            },
            None => {},
        }
    }
    proof {
        assert forall|id: u64| has_id(c, id) implies has_id(meta_views(d@), id) by {
            assert(m.contains_key(id));
        }
    }
    d
}

/// Sorting state: `s` holds one entry for each id of `dp`, each latest in `c`,
/// newest first.
pub open spec fn sort_ok(c: Seq<EntryMetaView>, dp: Seq<EntryMetaView>, s: Seq<EntryMetaView>) -> bool {
    &&& ids_distinct(s)
    &&& newest_first(s)
    &&& forall|k: int| 0 <= k < s.len() ==> is_latest(c, #[trigger] s[k])
    &&& forall|id: u64| has_id(dp, id) <==> has_id(s, id)
}

/// Where an entry with timestamp `ts` goes in a newest-first list: after every
/// entry at least as new.
fn insert_pos(s: &Vec<EntryMeta>, ts: u64) -> (j: usize)
    ensures
        j <= s.len(),
        forall|a: int| 0 <= a < j ==> s@[a].timestamp >= ts,
        j < s.len() ==> s@[j as int].timestamp < ts,
{
    let mut j: usize = 0;
    while j < s.len() && s[j].timestamp >= ts
        invariant
            j <= s.len(),
            forall|a: int| 0 <= a < j ==> s@[a].timestamp >= ts,
        decreases s.len() - j,
    {
        j += 1;
    }
    j
}

/// Inserting a new id's latest entry at its place keeps the list sorted.
proof fn lemma_sort_insert(
    c: Seq<EntryMetaView>,
    dp: Seq<EntryMetaView>,
    s: Seq<EntryMetaView>,
    ev: EntryMetaView,
    j: int,
)
    requires
        sort_ok(c, dp, s),
        is_latest(c, ev),
        !has_id(dp, ev.id),
        0 <= j <= s.len(),
        forall|a: int| 0 <= a < j ==> s[a].timestamp >= ev.timestamp,
        j < s.len() ==> s[j].timestamp < ev.timestamp,
    ensures
        sort_ok(c, dp.push(ev), s.insert(j, ev)),
{
    let ns = s.insert(j, ev);
    let nd = dp.push(ev);
    assert(!has_id(s, ev.id));
    assert forall|a: int, b: int| 0 <= a < b < ns.len() implies #[trigger] ns[a].timestamp >= #[trigger] ns[b].timestamp by {
        if b < j {
        } else if b == j {
            assert(ns[a] == s[a]);
        } else if a < j {
            assert(ns[b] == s[b - 1]);
        } else if a == j {
            assert(ns[b] == s[b - 1]);
            assert(s[j].timestamp >= s[b - 1].timestamp);
        } else {
            assert(ns[a] == s[a - 1]);
            assert(ns[b] == s[b - 1]);
        }
    }
    assert forall|a: int, b: int| 0 <= a < b < ns.len() implies #[trigger] ns[a].id != #[trigger] ns[b].id by {
        if a == j {
            assert(ns[b] == s[b - 1]);
            assert(s[b - 1].id != ev.id);
        } else if b == j {
            assert(ns[a] == s[a]);
            assert(s[a].id != ev.id);
        } else {
            let sa = if a < j { a } else { a - 1 };
            let sb = if b < j { b } else { b - 1 };
            assert(ns[a] == s[sa]);
            assert(ns[b] == s[sb]);
        }
    }
    assert forall|k: int| 0 <= k < ns.len() implies is_latest(c, #[trigger] ns[k]) by {
        if k < j {
            assert(ns[k] == s[k]);
        } else if k > j {
            assert(ns[k] == s[k - 1]);
        }
    }
    assert forall|id: u64| has_id(nd, id) <==> has_id(ns, id) by {
        if has_id(nd, id) {
            let w = choose|w: int| 0 <= w < nd.len() && #[trigger] nd[w].id == id;
            if w < dp.len() {
                assert(dp[w].id == id);
                assert(has_id(dp, id));
                let z = choose|z: int| 0 <= z < s.len() && #[trigger] s[z].id == id;
                let nz = if z < j { z } else { z + 1 };
                assert(ns[nz] == s[z]);
            } else {
                assert(ns[j].id == id);
            }
        }
        if has_id(ns, id) {
            let w = choose|w: int| 0 <= w < ns.len() && #[trigger] ns[w].id == id;
            if w == j {
                assert(nd[dp.len() as int].id == id);
            } else {
                let sw = if w < j { w } else { w - 1 };
                assert(ns[w] == s[sw]);
                assert(has_id(s, id));
                let z = choose|z: int| 0 <= z < dp.len() && #[trigger] dp[z].id == id;
                assert(nd[z].id == id);
            }
        }
    }
}

/// The sorted list, cut to `limit` entries, is a history reply.
proof fn lemma_history(c: Seq<EntryMetaView>, dv: Seq<EntryMetaView>, sv: Seq<EntryMetaView>, limit: nat, r: Seq<EntryMetaView>)
    requires
        dedup_ok(c, dv),
        sort_ok(c, dv, sv),
        r == (if sv.len() > limit {
            sv.take(limit as int)
        } else {
            sv
        }),
    ensures
        history_ok(c, r, limit),
{
    assert forall|e: EntryMetaView| #[trigger] is_latest(c, e) && !has_id(r, e.id) implies r.len() == limit && (limit
        > 0 ==> e.timestamp <= r[limit - 1].timestamp) by {
        let i = choose|i: int| 0 <= i < c.len() && c[i] == e && forall|j: int| i < j < c.len() ==> #[trigger] c[j].id != e.id;
        assert(c[i].id == e.id);
        assert(has_id(c, e.id));
        assert(has_id(dv, e.id));
        assert(has_id(sv, e.id));
        let p = choose|p: int| 0 <= p < sv.len() && #[trigger] sv[p].id == e.id;
        lemma_latest_unique(c, sv[p], e);
        if sv.len() <= limit {
            assert(r[p].id == e.id);
        } else {
            if p < limit {
                assert(r[p].id == e.id);
            }
            if limit > 0 && p > limit - 1 {
                assert(sv[limit - 1].timestamp >= sv[p].timestamp);
            }
        }
    }
}

/// The history reply for stored `entries` and recently `bumped` ones (which
/// override stored entries with the same id), cut to `limit` entries.
pub fn merge_history(entries: Vec<EntryMeta>, bumped: Vec<EntryMeta>, limit: usize) -> (r: Vec<EntryMeta>)
    ensures
        history_ok(meta_views(entries@) + meta_views(bumped@), meta_views(r@), limit as nat),
{
    let ghost c = meta_views(entries@) + meta_views(bumped@);
    let mut all = entries;
    let mut b = bumped;
    all.append(&mut b);
    proof {
        assert(meta_views(all@) =~= c);
    }
    let d = dedup(all);
    let ghost dv = meta_views(d@);
    let mut s: Vec<EntryMeta> = Vec::new();
    for e in it: d
        invariant
            dv == meta_views(it.seq()),
            dedup_ok(c, dv),
            sort_ok(c, dv.take(it.index() as int), meta_views(s@)),
    {
        let ghost i = it.index() as int;
        let ghost sv = meta_views(s@);
        let ghost ev = e@;
        let j = insert_pos(&s, e.timestamp);
        proof {
            assert(dv[i] == ev);
            assert(is_latest(c, dv[i]));
            assert forall|a: int| 0 <= a < j implies sv[a].timestamp >= ev.timestamp by {
                assert(sv[a] == s@[a]@);
            }
            if j < sv.len() {
                assert(sv[j as int] == s@[j as int]@);
            }
            assert(!has_id(dv.take(i), ev.id)) by {
                if has_id(dv.take(i), ev.id) {
                    let w = choose|w: int| 0 <= w < dv.take(i).len() && #[trigger] dv.take(i)[w].id == ev.id;
                    assert(dv[w].id != dv[i].id);
                }
            }
            lemma_sort_insert(c, dv.take(i), sv, ev, j as int);
            assert(dv.take(i + 1) =~= dv.take(i).push(ev));
        }
        s.insert(j, e);
        proof {
            assert(meta_views(s@) =~= sv.insert(j as int, ev));
        }
    }
    proof {
        assert(dv.take(dv.len() as int) =~= dv);
    }
    let ghost sv = meta_views(s@);
    if s.len() > limit {
        s.truncate(limit);
        proof {
            assert(meta_views(s@) =~= sv.take(limit as int));
        }
    }
    proof {
        lemma_history(c, dv, sv, limit as nat, meta_views(s@));
    }
    s
}


/// `s` without the entries with id `id`.
pub open spec fn without_id(s: Seq<EntryMetaView>, id: u64) -> Seq<EntryMetaView>
    decreases s.len(),
{
    if s.len() == 0 {
        seq![]
    } else if s.last().id == id {
        without_id(s.drop_last(), id)
    } else {
        without_id(s.drop_last(), id).push(s.last())
    }
}

/// The first entry of `s` with id `id`.
pub open spec fn first_with_id(s: Seq<EntryMetaView>, id: u64) -> Option<EntryMetaView>
    decreases s.len(),
{
    if s.len() == 0 {
        None
    } else if s[0].id == id {
        Some(s[0])
    } else {
        first_with_id(s.drop_first(), id)
    }
}

/// What `without_id` keeps: entries of `s`, none with id `id`.
proof fn lemma_without_id(s: Seq<EntryMetaView>, id: u64)
    ensures
        forall|k: int|
            #![trigger without_id(s, id)[k]]
            0 <= k < without_id(s, id).len() ==> without_id(s, id)[k].id != id && s.contains(without_id(s, id)[k]),
    decreases s.len(),
{
    if s.len() > 0 {
        lemma_without_id(s.drop_last(), id);
        let p = without_id(s.drop_last(), id);
        assert forall|k: int|
            #![trigger without_id(s, id)[k]]
            0 <= k < without_id(s, id).len() implies without_id(s, id)[k].id != id && s.contains(without_id(s, id)[k]) by {
            if k < p.len() {
                assert(without_id(s, id)[k] == p[k]);
                assert(p[k].id != id && s.drop_last().contains(p[k]));
                let i = choose|i: int| 0 <= i < s.drop_last().len() && s.drop_last()[i] == p[k];
                assert(s[i] == p[k]);
            } else {
                assert(s[s.len() - 1] == s.last());
            }
        }
    }
}

/// The entry `first_with_id` finds has the id asked for.
pub proof fn lemma_first_with_id(s: Seq<EntryMetaView>, id: u64)
    ensures
        (first_with_id(s, id) matches Some(e) ==> e.id == id && s.contains(e)),
    decreases s.len(),
{
    if s.len() > 0 && s[0].id != id {
        lemma_first_with_id(s.drop_first(), id);
        if let Some(e) = first_with_id(s.drop_first(), id) {
            let i = choose|i: int| 0 <= i < s.drop_first().len() && s.drop_first()[i] == e;
            assert(s[i + 1] == e);
        }
    }
}

/// An entry with its timestamp replaced by `now`.
pub open spec fn restamped(t: EntryMetaView, now: u64) -> EntryMetaView {
    EntryMetaView { timestamp: now, ..t }
}

/// The restamped entry `t` comes first when it is newer than everything else.
proof fn lemma_restamped_first(
    entries: Seq<EntryMetaView>,
    bumped: Seq<EntryMetaView>,
    t: EntryMetaView,
    now: u64,
    r: Seq<EntryMetaView>,
    limit: nat,
)
    requires
        limit > 0,
        forall|i: int| 0 <= i < entries.len() ==> #[trigger] entries[i].timestamp < now,
        forall|i: int| 0 <= i < bumped.len() ==> #[trigger] bumped[i].timestamp < now,
        history_ok(entries + (seq![restamped(t, now)] + without_id(bumped, t.id)), r, limit),
    ensures
        r.len() > 0,
        r[0] == restamped(t, now),
{
    let n = restamped(t, now);
    let w = without_id(bumped, t.id);
    let c = entries + (seq![n] + w);
    lemma_without_id(bumped, t.id);
    let at = entries.len() as int;
    assert(c[at] == n);
    // Every candidate other than `n` is older than `now`.
    assert forall|i: int| 0 <= i < c.len() && i != at implies (#[trigger] c[i]).timestamp < now by {
        if i < at {
            assert(c[i] == entries[i]);
        } else {
            let k = i - at - 1;
            assert(c[i] == w[k]);
            assert(w[k].id != t.id && bumped.contains(w[k]));
            let j = choose|j: int| 0 <= j < bumped.len() && bumped[j] == w[k];
            assert(bumped[j].timestamp < now);
        }
    }
    assert forall|j: int| at < j < c.len() implies #[trigger] c[j].id != n.id by {
        assert(c[j] == w[j - at - 1]);
        assert(w[j - at - 1].id != t.id);
    }
    assert(is_latest(c, n));
    if !has_id(r, n.id) {
        let last = r[limit - 1];
        assert(is_latest(c, last));
        let i = choose|i: int| 0 <= i < c.len() && c[i] == last && forall|j: int| i < j < c.len() ==> #[trigger] c[j].id != last.id;
        assert(r[limit - 1].id == last.id);
        assert(i == at);
        assert(false);
    }
    let k = choose|k: int| 0 <= k < r.len() && #[trigger] r[k].id == n.id;
    assert(is_latest(c, r[k]));
    lemma_latest_unique(c, r[k], n);
    assert(is_latest(c, r[0]));
    let i0 = choose|i: int| 0 <= i < c.len() && c[i] == r[0] && forall|j: int| i < j < c.len() ==> #[trigger] c[j].id != r[0].id;
    if k > 0 {
        assert(r[0].timestamp >= r[k].timestamp);
    }
    assert(i0 == at);
}

/// The error text for an unknown entry.
pub open spec fn not_found(id: u64) -> Seq<char> {
    "entry "@ + decimal(id as nat) + " not found"@
}

/// The error text for an unknown entry.
pub fn not_found_message(id: u64) -> (m: String)
    ensures
        m@ == not_found(id),
{
    string_from(&concat_chars(&concat_chars(&chars_of("entry "), &decimal_u64(id)), &chars_of(" not found")))
}

/// The first entry of `s` with id `id`, copied.
fn find_first(s: &Vec<EntryMeta>, id: u64) -> (r: Option<EntryMeta>)
    ensures
        match r {
            Some(e) => first_with_id(meta_views(s@), id) == Some(e@),
            None => first_with_id(meta_views(s@), id) is None,
        },
{
    let ghost v = meta_views(s@);
    let mut k: usize = 0;
    proof {
        assert(v.skip(0) =~= v);
    }
    while k < s.len()
        invariant
            v == meta_views(s@),
            k <= s.len(),
            first_with_id(v, id) == first_with_id(v.skip(k as int), id),
        decreases s.len() - k,
    {
        proof {
            assert(v.skip(k as int)[0] == s@[k as int]@);
            assert(v.skip(k as int).drop_first() =~= v.skip(k + 1));
        }
        if s[k].id == id {
            return Some(s[k].clone());
        }
        k += 1;
    }
    proof {
        assert(v.skip(k as int) =~= Seq::<EntryMetaView>::empty());
    }
    None
}

/// What bumping entry `id` at time `now` does: the entry (taken from the bumped
/// list first, else from the stored entries) moves to the front of the bumped
/// list with timestamp `now`, and any other copy leaves that list; an unknown id
/// is an error and changes nothing.
pub open spec fn bump_outcome(
    old_bumped: Seq<EntryMetaView>,
    entries: Seq<EntryMetaView>,
    id: u64,
    now: u64,
    new_bumped: Seq<EntryMetaView>,
    r: DaemonResponse,
) -> bool {
    let target = match first_with_id(old_bumped, id) {
        Some(e) => Some(e),
        None => first_with_id(entries, id),
    };
    match target {
        Some(t) => {
            &&& r is ClipboardBumped
            &&& new_bumped == seq![restamped(t, now)] + without_id(old_bumped, id)
        },
        None => {
            &&& r matches DaemonResponse::Error(m) && m@ == not_found(id)
            &&& new_bumped == old_bumped
        },
    }
}

/// Moves entry `id` to the front of the bumped list with timestamp `now`: the
/// bumped copy if there is one, else the stored entry. Unknown ids are an error
/// and change nothing.
pub fn bump_entry(bumped: &mut Vec<EntryMeta>, entries: &Vec<EntryMeta>, id: u64, now: u64) -> (r: DaemonResponse)
    ensures
        bump_outcome(meta_views(old(bumped)@), meta_views(entries@), id, now, meta_views(final(bumped)@), r),
        first_with_id(meta_views(old(bumped)@), id) is None && first_with_id(meta_views(entries@), id) is None
            ==> final(bumped)@ == old(bumped)@,
{
    let target = match find_first(bumped, id) {
        Some(e) => Some(e),
        None => find_first(entries, id),
    };
    match target {
        Some(mut entry) => {
            let ghost t = entry@;
            entry.timestamp = now;
            proof {
                assert(entry@ == restamped(t, now));
            }
            let ghost ov = meta_views(bumped@);
            let mut kept: Vec<EntryMeta> = Vec::new();
            kept.push(entry);
            let ghost head = kept@;
            proof {
                assert(meta_views(head) =~= seq![restamped(t, now)]);
            }
            let mut old_list: Vec<EntryMeta> = Vec::new();
            std::mem::swap(&mut old_list, bumped);
            proof {
                assert(meta_views(old_list@) == ov);
            }
            for e in it: old_list
                invariant
                    ov == meta_views(it.seq()),
                    kept@.len() >= 1,
                    kept@[0] == head[0],
                    meta_views(kept@) == meta_views(head) + without_id(ov.take(it.index() as int), id),
            {
                let ghost i = it.index() as int;
                let ghost kv = meta_views(kept@);
                proof {
                    assert(ov.take(i + 1).drop_last() =~= ov.take(i));
                    assert(ov.take(i + 1).last() == e@);
                }
                if e.id != id {
                    kept.push(e);
                    proof {
                        assert(meta_views(kept@) =~= kv.push(e@));
                    }
                }
            }
            proof {
                assert(ov.take(ov.len() as int) =~= ov);
            }
            *bumped = kept;
            DaemonResponse::ClipboardBumped
        },
        None => DaemonResponse::Error(not_found_message(id)),
    }
}

/// An entry bumped at a time later than every stored and previously bumped
/// timestamp comes first in any history reply with room for an entry.
pub proof fn lemma_bumped_first(
    entries: Seq<EntryMetaView>,
    old_bumped: Seq<EntryMetaView>,
    id: u64,
    now: u64,
    new_bumped: Seq<EntryMetaView>,
    r: Seq<EntryMetaView>,
    limit: nat,
)
    requires
        limit > 0,
        bump_outcome(old_bumped, entries, id, now, new_bumped, DaemonResponse::ClipboardBumped),
        forall|i: int| 0 <= i < entries.len() ==> #[trigger] entries[i].timestamp < now,
        forall|i: int| 0 <= i < old_bumped.len() ==> #[trigger] old_bumped[i].timestamp < now,
        history_ok(entries + new_bumped, r, limit),
    ensures
        r.len() > 0,
        r[0].id == id,
        r[0].timestamp == now,
{
    lemma_first_with_id(old_bumped, id);
    lemma_first_with_id(entries, id);
    let t = match first_with_id(old_bumped, id) {
        Some(e) => e,
        None => first_with_id(entries, id).unwrap(),
    };
    lemma_restamped_first(entries, old_bumped, t, now, r, limit);
}

/// Records the outcome of a history refresh and returns the error to report, if
/// any: an error is reported when it differs from the last one recorded, and a
/// success clears the record.
pub fn note_refresh(last: &mut Option<String>, result: Result<(), String>) -> (report: Option<String>)
    ensures
        match result {
            Ok(()) => (*final(last)) is None && report is None,
            Err(e) => {
                &&& *final(last) == Some(e)
                &&& (report is Some <==> opt_view(*old(last)) != Some(e@))
                &&& (report matches Some(m) ==> m@ == e@)
            },
        },
{
    match result {
        Ok(()) => {
            *last = None;
            None
        },
        Err(err) => {
            let should_log = match &*last {
                Some(prev) => !crate::text::str_eq(prev.as_str(), err.as_str()),
                None => true,
            };
            *last = Some(err.clone());
            if should_log {
                Some(err)
            } else {
                None
            }
        },
    }
}

/// Copies of entry metadata.
pub fn clone_metas(v: &Vec<EntryMeta>) -> (r: Vec<EntryMeta>)
    ensures
        meta_views(r@) == meta_views(v@),
{
    let mut r: Vec<EntryMeta> = Vec::new();
    for i in 0..v.len()
        invariant
            meta_views(r@) == meta_views(v@.take(i as int)),
    {
        let ghost prev = r@;
        r.push(v[i].clone());
        proof {
            assert(meta_views(r@) =~= meta_views(prev).push(v@[i as int]@));
            assert(v@.take(i + 1) =~= v@.take(i as int).push(v@[i as int]));
        }
    }
    proof {
        assert(v@.take(v.len() as int) =~= v@);
    }
    r
}

/// What answering a request takes: a reply ready now, or a paste or content
/// lookup that the host performs before replying.
#[derive(Debug)]
pub enum DaemonStep {
    Reply(DaemonResponse),
    Paste { id: u64 },
    Content { id: u64 },
}

/// Answers a request from the daemon's state: the stored `entries`, the `bumped`
/// ones and the `launcher` items.
pub fn dispatch(
    req: DaemonRequest,
    entries: &Vec<EntryMeta>,
    bumped: &mut Vec<EntryMeta>,
    launcher: &Vec<LauncherItem>,
) -> (step: DaemonStep)
    ensures
        match req {
            DaemonRequest::Ping => step matches DaemonStep::Reply(DaemonResponse::Pong),
            DaemonRequest::GetClipboardHistory { limit } => step matches DaemonStep::Reply(
                DaemonResponse::ClipboardHistory(h),
            ) && history_ok(meta_views(entries@) + meta_views(old(bumped)@), meta_views(h@), limit as nat),
            DaemonRequest::GetLauncherItems => step matches DaemonStep::Reply(DaemonResponse::LauncherItems(v))
                && item_views(v@) == item_views(launcher@),
            DaemonRequest::PasteClipboard { id } => step == DaemonStep::Paste { id },
            DaemonRequest::GetClipboardContent { id } => step == DaemonStep::Content { id },
            DaemonRequest::BumpClipboardEntry { id } => step matches DaemonStep::Reply(r) && exists|now: u64|
                #[trigger] bump_outcome(meta_views(old(bumped)@), meta_views(entries@), id, now, meta_views(final(bumped)@), r),
        },
        !(req is BumpClipboardEntry) ==> final(bumped)@ == old(bumped)@,
{
    match req {
        DaemonRequest::Ping => DaemonStep::Reply(DaemonResponse::Pong),
        DaemonRequest::GetClipboardHistory { limit } => {
            let h = merge_history(clone_metas(entries), clone_metas(bumped), limit);
            DaemonStep::Reply(DaemonResponse::ClipboardHistory(h))
        },
        DaemonRequest::GetLauncherItems => DaemonStep::Reply(DaemonResponse::LauncherItems(clone_items(launcher))),
        DaemonRequest::PasteClipboard { id } => DaemonStep::Paste { id },
        DaemonRequest::GetClipboardContent { id } => DaemonStep::Content { id },
        DaemonRequest::BumpClipboardEntry { id } => {
            let now = now_micros();
            DaemonStep::Reply(bump_entry(bumped, entries, id, now))
        },
    }
}

/// The reply to a content request once the store was asked for entry `id`.
pub fn content_reply(found: Result<Option<ClipboardEntry>, String>, id: u64) -> (r: DaemonResponse)
    ensures
        match found {
            Ok(Some(e)) => r matches DaemonResponse::ClipboardContent(c) && c@ == e.full_content_spec(),
            Ok(None) => r matches DaemonResponse::Error(m) && m@ == not_found(id),
            Err(err) => r matches DaemonResponse::Error(m) && m == err,
        },
{
    match found {
        Ok(Some(entry)) => DaemonResponse::ClipboardContent(entry.full_content()),
        Ok(None) => DaemonResponse::Error(not_found_message(id)),
        Err(e) => DaemonResponse::Error(e),
    }
}

/// The reply to a paste request once the paste was attempted.
pub fn paste_reply(result: Result<(), String>) -> (r: DaemonResponse)
    ensures
        match result {
            Ok(()) => r is ClipboardPasted,
            Err(err) => r matches DaemonResponse::Error(m) && m == err,
        },
{
    match result {
        Ok(()) => DaemonResponse::ClipboardPasted,
        Err(e) => DaemonResponse::Error(e),
    }
}

} // verus!
