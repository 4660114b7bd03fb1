//! What holds of the key-value namespace, whatever was written to it.

use vstd::prelude::*;
use crate::key_map::strictly_sorted;
use crate::key_order::{key_less, lemma_key_less_asymmetric};
use crate::kv::KvState;
use crate::kv_value::{seq_of, KVMeta, KVValueView, SeqValueView};
use crate::match_seq::MatchSeq;

verus! {

/// A key that nothing is stored under reads as absent at any time, and a
/// write to it on the condition `Exact(0)` takes effect: it reports no earlier
/// entry, and the new entry carries the next sequence number, the value and
/// the metadata that were given.
pub proof fn law_fresh_key(
    s: KvState,
    key: Seq<char>,
    value: Seq<u8>,
    meta: Option<KVMeta>,
    now: u64,
)
    requires
        !s.entries.contains_key(key),
    ensures
        s.get(key, now) is None,
        s.upsert(key, MatchSeq::Exact(0), Some(value), meta, now).1.prev is None,
        s.upsert(key, MatchSeq::Exact(0), Some(value), meta, now).1.result == Some(
            ((s.seq + 1) as u64, KVValueView { meta, value }),
        ),
        s.upsert(key, MatchSeq::Exact(0), Some(value), meta, now).0.stored(key) == Some(
            ((s.seq + 1) as u64, KVValueView { meta, value }),
        ),
{
}

/// The first write to an empty namespace gets sequence number 1.
pub proof fn law_first_seq(key: Seq<char>, value: Seq<u8>, meta: Option<KVMeta>, now: u64)
    ensures
        KvState::init().wf(),
        KvState::init().upsert(key, MatchSeq::Exact(0), Some(value), meta, now).1.result == Some(
            (1u64, KVValueView { meta, value }),
        ),
{
}

/// A write that stores a value gets a sequence number greater than that of
/// every entry stored before it and greater than every number handed out
/// before, and leaves the counter at that number.
pub proof fn law_seq_grows(
    s: KvState,
    key: Seq<char>,
    cond: MatchSeq,
    value: Seq<u8>,
    meta: Option<KVMeta>,
    now: u64,
)
    requires
        s.wf(),
        s.has_room(),
        cond.admits(seq_of(s.get(key, now))),
    ensures
        ({
            let (t, r) = s.upsert(key, cond, Some(value), meta, now);
            &&& seq_of(r.result) matches Some(n)
            &&& n > s.seq
            &&& n == t.seq
            &&& forall|k: Seq<char>| #[trigger] s.entries.contains_key(k) ==> s.entries[k].0 < n
        }),
{
}

/// A change of metadata that takes effect keeps the value, puts the given
/// metadata in place, and gets a sequence number greater than that of every
/// entry stored before it.
pub proof fn law_seq_grows_on_meta(
    s: KvState,
    key: Seq<char>,
    cond: MatchSeq,
    meta: Option<KVMeta>,
    now: u64,
)
    requires
        s.wf(),
        s.has_room(),
        s.get(key, now) is Some,
        cond.admits(seq_of(s.get(key, now))),
    ensures
        ({
            let (t, r) = s.update_meta(key, cond, meta, now);
            &&& r.prev matches Some(before)
            &&& r.result matches Some(after)
            &&& after.1.value == before.1.value
            &&& after.1.meta == meta
            &&& after.0 > s.seq
            &&& forall|k: Seq<char>| #[trigger]
                s.entries.contains_key(k) ==> s.entries[k].0 < after.0
        }),
{
}

/// No write makes the counter smaller, and one that moves it moves it by one.
pub proof fn law_counter_monotone(
    s: KvState,
    key: Seq<char>,
    cond: MatchSeq,
    value: Option<Seq<u8>>,
    meta: Option<KVMeta>,
    now: u64,
)
    requires
        s.has_room(),
    ensures
        s.seq <= s.upsert(key, cond, value, meta, now).0.seq <= s.seq + 1,
        s.seq <= s.update_meta(key, cond, meta, now).0.seq <= s.seq + 1,
{
}

/// A write whose condition does not hold changes nothing, and reports the
/// entry it found as both the earlier and the later one.
pub proof fn law_mismatch_is_noop(
    s: KvState,
    key: Seq<char>,
    cond: MatchSeq,
    value: Option<Seq<u8>>,
    meta: Option<KVMeta>,
    now: u64,
)
    requires
        !cond.admits(seq_of(s.get(key, now))),
    ensures
        s.upsert(key, cond, value, meta, now).0 == s,
        s.upsert(key, cond, value, meta, now).1.prev == s.upsert(key, cond, value, meta, now).1.result,
        s.upsert(key, cond, value, meta, now).1.prev == s.get(key, now),
        s.update_meta(key, cond, meta, now).0 == s,
        s.update_meta(key, cond, meta, now).1.prev == s.update_meta(key, cond, meta, now).1.result,
{
}

/// A write on the condition `Exact(n)` to a key whose visible sequence number
/// is not `n` changes nothing. An absent or expired key counts as sequence
/// number zero here.
pub proof fn law_exact_mismatch(
    s: KvState,
    key: Seq<char>,
    n: u64,
    value: Option<Seq<u8>>,
    meta: Option<KVMeta>,
    now: u64,
)
    requires
        match s.get(key, now) {
            Some(e) => e.0 != n,
            None => n != 0,
        },
    ensures
        s.upsert(key, MatchSeq::Exact(n), value, meta, now).0 == s,
        s.upsert(key, MatchSeq::Exact(n), value, meta, now).1.prev == s.upsert(
            key,
            MatchSeq::Exact(n),
            value,
            meta,
            now,
        ).1.result,
{
}

/// A write to one key leaves what is stored under every other key as it is.
pub proof fn law_other_keys_untouched(
    s: KvState,
    key: Seq<char>,
    other: Seq<char>,
    cond: MatchSeq,
    value: Option<Seq<u8>>,
    meta: Option<KVMeta>,
    now: u64,
)
    requires
        other != key,
    ensures
        s.upsert(key, cond, value, meta, now).0.stored(other) == s.stored(other),
        s.update_meta(key, cond, meta, now).0.stored(other) == s.stored(other),
{
}

/// A removal that takes effect leaves nothing under the key, at any time.
pub proof fn law_removed_is_absent(s: KvState, key: Seq<char>, cond: MatchSeq, now: u64, later: u64)
    requires
        cond.admits(seq_of(s.get(key, now))),
    ensures
        s.upsert(key, cond, None, None, now).1.result is None,
        s.upsert(key, cond, None, None, now).0.get(key, later) is None,
        s.upsert(key, cond, None, None, now).0.stored(key) is None,
{
}

/// From its expiry time on an entry is hidden: a read of its key finds
/// nothing, a read of several keys has nothing in its slot, and no listing
/// shows it. A write to its key on the condition `Exact(0)` takes effect as on
/// an absent key.
pub proof fn law_expiry_hides(
    s: KvState,
    key: Seq<char>,
    expire_at: u64,
    now: u64,
    keys: Seq<Seq<char>>,
    slot: int,
    prefix: Seq<char>,
    value: Seq<u8>,
    meta: Option<KVMeta>,
)
    requires
        s.entries.contains_key(key),
        s.entries[key].1.meta == Some(KVMeta { expire_at: Some(expire_at) }),
        now >= expire_at,
        0 <= slot < keys.len(),
        keys[slot] == key,
    ensures
        s.get(key, now) is None,
        s.mget(keys, now)[slot] is None,
        !s.lists(prefix, now, key),
        s.upsert(key, MatchSeq::Exact(0), Some(value), meta, now).1.prev is None,
        s.upsert(key, MatchSeq::Exact(0), Some(value), meta, now).1.result == Some(
            ((s.seq + 1) as u64, KVValueView { meta, value }),
        ),
{
}

/// Before its expiry time an entry is visible as it is stored.
pub proof fn law_visible_before_expiry(s: KvState, key: Seq<char>, expire_at: u64, now: u64)
    requires
        s.entries.contains_key(key),
        s.entries[key].1.meta == Some(KVMeta { expire_at: Some(expire_at) }),
        now < expire_at,
    ensures
        s.get(key, now) == Some(s.entries[key]),
{
}

/// Two sorted sequences of keys that hold the same keys are the same
/// sequence.
pub proof fn lemma_sorted_same_keys(x: Seq<Seq<char>>, y: Seq<Seq<char>>)
    requires
        strictly_sorted(x),
        strictly_sorted(y),
        forall|k: Seq<char>| x.contains(k) <==> y.contains(k),
    ensures
        x == y,
    decreases x.len(),
{
    if x.len() == 0 {
        if y.len() > 0 {
            assert(y.contains(y[0]));
        }
        assert(x =~= y);
    } else {
        assert(x.contains(x[0]));
        let j = y.index_of(x[0]);
        assert(y.contains(y[0]));
        let i = x.index_of(y[0]);
        if j > 0 {
            assert(key_less(y[0], y[j]));
            if i > 0 {
                assert(key_less(x[0], x[i]));
            }
            lemma_key_less_asymmetric(y[0], x[0]);
        }
        let xt = x.drop_first();
        let yt = y.drop_first();
        assert forall|a: int, b: int| 0 <= a < b < xt.len() implies key_less(
            #[trigger] xt[a],
            #[trigger] xt[b],
        ) by {
            assert(xt[a] == x[a + 1] && xt[b] == x[b + 1]);
        }
        assert forall|a: int, b: int| 0 <= a < b < yt.len() implies key_less(
            #[trigger] yt[a],
            #[trigger] yt[b],
        ) by {
            assert(yt[a] == y[a + 1] && yt[b] == y[b + 1]);
        }
        assert forall|k: Seq<char>| xt.contains(k) <==> yt.contains(k) by {
            if xt.contains(k) {
                let a = xt.index_of(k);
                assert(x[a + 1] == k);
                assert(key_less(x[0], x[a + 1]));
                lemma_key_less_asymmetric(x[0], k);
                assert(x.contains(k));
                let b = y.index_of(k);
                assert(yt[b - 1] == k);
            }
            if yt.contains(k) {
                let b = yt.index_of(k);
                assert(y[b + 1] == k);
                assert(key_less(y[0], y[b + 1]));
                lemma_key_less_asymmetric(y[0], k);
                assert(y.contains(k));
                let a = x.index_of(k);
                assert(xt[a - 1] == k);
            }
        }
        lemma_sorted_same_keys(xt, yt);
        assert(x.len() == y.len());
        assert forall|a: int| 0 <= a < x.len() implies x[a] == y[a] by {
            if a > 0 {
                assert(xt[a - 1] == x[a]);
                assert(yt[a - 1] == y[a]);
            }
        }
        assert(x =~= y);
    }
}

/// There is one listing of a prefix at a time: the state, the prefix and the
/// time decide it.
pub proof fn law_listing_unique(
    s: KvState,
    prefix: Seq<char>,
    now: u64,
    a: Seq<(Seq<char>, SeqValueView)>,
    b: Seq<(Seq<char>, SeqValueView)>,
)
    requires
        s.is_listing(prefix, now, a),
        s.is_listing(prefix, now, b),
    ensures
        a == b,
{
    let ka = Seq::new(a.len(), |i: int| a[i].0);
    let kb = Seq::new(b.len(), |i: int| b[i].0);
    assert forall|k: Seq<char>| ka.contains(k) <==> kb.contains(k) by {
        if ka.contains(k) {
            let i = ka.index_of(k);
            assert(s.lists(prefix, now, a[i].0));
            let j = choose|j: int| 0 <= j < b.len() && #[trigger] b[j].0 == k;
            assert(kb[j] == k);
        }
        if kb.contains(k) {
            let i = kb.index_of(k);
            assert(s.lists(prefix, now, b[i].0));
            let j = choose|j: int| 0 <= j < a.len() && #[trigger] a[j].0 == k;
            assert(ka[j] == k);
        }
    }
    lemma_sorted_same_keys(ka, kb);
    assert(a.len() == b.len());
    assert forall|i: int| 0 <= i < a.len() implies a[i] == b[i] by {
        assert(ka[i] == kb[i]);
        assert(s.lists(prefix, now, a[i].0));
        assert(s.lists(prefix, now, b[i].0));
    }
    assert(a =~= b);
}

} // verus!
