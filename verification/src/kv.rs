//! The generic key-value namespace.
//!
//! Every entry carries the sequence number of the write that put it there.
//! Sequence numbers come from one counter for the whole namespace, so they
//! grow from write to write and none is used twice. A write names a condition
//! on the entry's current sequence number and takes effect only if the
//! condition holds. An entry whose expiry time has passed counts as absent, for
//! reads and for the condition of a write alike.

use vstd::prelude::*;
use vstd::string::*;
use crate::error::{MetaError, MetaErrorView};
use crate::key_map::{strictly_sorted, KeyMap};
use crate::key_order::{
    key_less, lemma_key_less_asymmetric, lemma_key_less_irreflexive, lemma_prefix_block,
    lemma_prefix_not_after, str_starts_with,
};
use crate::kv_value::{
    clone_seq_value, filter_expired, seq_of, unexpired, KVMeta, KVValue, KVValueView, SeqValue,
    SeqValueView,
};
use crate::match_seq::MatchSeq;

verus! {

/// What a write reports: the entry as it was visible before the write, and as
/// it is visible after it.
#[derive(Debug, PartialEq, Eq)]
pub struct UpsertKVActionResult {
    /// The entry before the write; `None` if there was none or it had expired.
    pub prev: Option<SeqValue>,
    /// The entry after the write; `None` after a removal. Equal to `prev` if the
    /// condition did not hold.
    pub result: Option<SeqValue>,
}

/// An `UpsertKVActionResult` as contracts see it.
pub struct UpsertView {
    pub prev: Option<SeqValueView>,
    pub result: Option<SeqValueView>,
}

impl View for UpsertKVActionResult {
    type V = UpsertView;

    open spec fn view(&self) -> UpsertView {
        UpsertView { prev: self.prev.deep_view(), result: self.result.deep_view() }
    }
}

impl DeepView for UpsertKVActionResult {
    type V = UpsertView;

    open spec fn deep_view(&self) -> UpsertView {
        self@
    }
}

impl Clone for UpsertKVActionResult {
    fn clone(&self) -> (r: Self)
        ensures
            r@ == self@,
    {
        UpsertKVActionResult {
            prev: clone_seq_value(self.prev.as_ref()),
            result: clone_seq_value(self.result.as_ref()),
        }
    }
}

/// What reading one key reports.
#[derive(Debug, PartialEq, Eq)]
pub struct GetKVActionResult {
    /// The entry, unless there is none or it has expired.
    pub result: Option<SeqValue>,
}

/// What reading several keys reports.
#[derive(Debug, PartialEq, Eq)]
pub struct MGetKVActionResult {
    /// One slot for each key asked for, in the order asked.
    pub result: Vec<Option<SeqValue>>,
}

/// What listing a prefix reports: the keys with their entries, in key order.
pub type PrefixListReply = Vec<(String, SeqValue)>;

/// The namespace as contracts see it.
pub struct KvState {
    /// The last sequence number that was handed out; zero before the first.
    pub seq: u64,
    /// What is stored under each key, expired or not.
    pub entries: Map<Seq<char>, SeqValueView>,
}

/// The bytes of an optional value.
pub open spec fn opt_bytes(value: Option<Vec<u8>>) -> Option<Seq<u8>> {
    match value {
        Some(v) => Some(v@),
        None => None,
    }
}

/// The keys of a list of strings.
pub open spec fn key_views(keys: Seq<String>) -> Seq<Seq<char>> {
    Seq::new(keys.len(), |i: int| keys[i]@)
}

/// The error that rejects an empty key.
pub open spec fn empty_key_error() -> MetaErrorView {
    MetaErrorView::InvalidArgument("empty key"@)
}

impl KvState {
    /// The namespace before any write.
    pub open spec fn init() -> KvState {
        KvState { seq: 0, entries: Map::empty() }
    }

    /// No key is empty; every entry's sequence number was handed out by the
    /// counter; and no two entries share one.
    pub open spec fn wf(self) -> bool {
        &&& forall|k: Seq<char>| #[trigger]
            self.entries.contains_key(k) ==> k.len() > 0 && 1 <= self.entries[k].0 <= self.seq
        &&& forall|k1: Seq<char>, k2: Seq<char>|
            #![trigger self.entries[k1], self.entries[k2]]
            self.entries.contains_key(k1) && self.entries.contains_key(k2) && k1 != k2
                ==> self.entries[k1].0 != self.entries[k2].0
    }

    /// The counter can hand out one more sequence number.
    pub open spec fn has_room(self) -> bool {
        self.seq < u64::MAX
    }

    /// What is stored under `key`, expired or not.
    pub open spec fn stored(self, key: Seq<char>) -> Option<SeqValueView> {
        if self.entries.contains_key(key) {
            Some(self.entries[key])
        } else {
            None
        }
    }

    /// What a read of `key` at time `now` sees.
    pub open spec fn get(self, key: Seq<char>, now: u64) -> Option<SeqValueView> {
        unexpired(self.stored(key), now)
    }

    /// What a read of several keys at time `now` sees: slot by slot what `get`
    /// sees.
    pub open spec fn mget(self, keys: Seq<Seq<char>>, now: u64) -> Seq<Option<SeqValueView>> {
        Seq::new(keys.len(), |i: int| self.get(keys[i], now))
    }

    /// Whether a listing of `prefix` at time `now` shows `key`.
    pub open spec fn lists(self, prefix: Seq<char>, now: u64, key: Seq<char>) -> bool {
        prefix.is_prefix_of(key) && self.get(key, now) is Some
    }

    /// Whether `out` is the listing of `prefix` at time `now`: the keys that
    /// start with `prefix` and have not expired, each once and with its entry,
    /// in key order.
    pub open spec fn is_listing(
        self,
        prefix: Seq<char>,
        now: u64,
        out: Seq<(Seq<char>, SeqValueView)>,
    ) -> bool {
        &&& strictly_sorted(Seq::new(out.len(), |i: int| out[i].0))
        &&& forall|i: int|
            0 <= i < out.len() ==> self.lists(prefix, now, #[trigger] out[i].0) && Some(out[i].1)
                == self.get(out[i].0, now)
        &&& forall|k: Seq<char>| #[trigger]
            self.lists(prefix, now, k) ==> exists|i: int| 0 <= i < out.len() && #[trigger] out[i].0 == k
    }

    /// A write: the state after it, and what it reports.
    ///
    /// The condition is held against the entry as a read at time `now` sees it.
    /// If it does not hold, nothing changes and `result` is `prev`. If it holds,
    /// the write takes the next sequence number. With a value it puts the value
    /// under the key, with the given metadata, or, if none is given, with the
    /// metadata of the entry it replaces. Without a value it removes the key.
    pub open spec fn upsert(
        self,
        key: Seq<char>,
        cond: MatchSeq,
        value: Option<Seq<u8>>,
        meta: Option<KVMeta>,
        now: u64,
    ) -> (KvState, UpsertView) {
        let prev = self.get(key, now);
        if !cond.admits(seq_of(prev)) {
            (self, UpsertView { prev, result: prev })
        } else {
            let seq = (self.seq + 1) as u64;
            match value {
                Some(v) => {
                    let kept = match prev {
                        Some(e) => e.1.meta,
                        None => None,
                    };
                    let entry = (
                        seq,
                        KVValueView { meta: if meta is Some { meta } else { kept }, value: v },
                    );
                    (
                        KvState { seq, entries: self.entries.insert(key, entry) },
                        UpsertView { prev, result: Some(entry) },
                    )
                },
                None => (
                    KvState { seq, entries: self.entries.remove(key) },
                    UpsertView { prev, result: None },
                ),
            }
        }
    }

    /// A change of metadata only: the state after it, and what it reports.
    ///
    /// The condition is held against the entry as a read at time `now` sees it.
    /// If it holds and there is such an entry, the entry keeps its value, gets
    /// the given metadata in place of its own, and takes the next sequence
    /// number. Otherwise nothing changes and `result` is `prev`.
    pub open spec fn update_meta(
        self,
        key: Seq<char>,
        cond: MatchSeq,
        meta: Option<KVMeta>,
        now: u64,
    ) -> (KvState, UpsertView) {
        let prev = self.get(key, now);
        match prev {
            Some(e) if cond.admits(seq_of(prev)) => {
                let seq = (self.seq + 1) as u64;
                let entry = (seq, KVValueView { meta, value: e.1.value });
                (
                    KvState { seq, entries: self.entries.insert(key, entry) },
                    UpsertView { prev, result: Some(entry) },
                )
            },
            _ => (self, UpsertView { prev, result: prev }),
        }
    }
}

/// The generic key-value namespace.
pub struct GenericKV {
    seq: u64,
    entries: KeyMap<SeqValue>,
}

impl View for GenericKV {
    type V = KvState;

    closed spec fn view(&self) -> KvState {
        KvState {
            seq: self.seq,
            entries: self.entries@.map_values(|e: SeqValue| e.deep_view()),
        }
    }
}

impl GenericKV {
    /// The entries are held in key order.
    pub closed spec fn rep_ok(&self) -> bool {
        self.entries.wf()
    }

    /// The namespace is held as it should be, and what it holds is well-formed.
    pub open spec fn wf(&self) -> bool {
        self.rep_ok() && self@.wf()
    }

    proof fn lemma_stored(&self, key: Seq<char>)
        requires
            self.rep_ok(),
        ensures
            self@.entries.contains_key(key) == self.entries@.contains_key(key),
            self.entries@.contains_key(key) ==> self@.entries[key] == self.entries@[key].deep_view(),
    {
    }

    /// An empty namespace.
    pub fn new() -> (kv: Self)
        ensures
            kv.wf(),
            kv@ == KvState::init(),
    {
        let kv = GenericKV { seq: 0, entries: KeyMap::new() };
        assert(kv@.entries =~= Map::<Seq<char>, SeqValueView>::empty());
        kv
    }

    /// The last sequence number that was handed out.
    pub fn last_seq(&self) -> (s: u64)
        ensures
            s == self@.seq,
    {
        self.seq
    }

    /// Whether one more write can get a sequence number.
    pub fn has_room(&self) -> (r: bool)
        ensures
            r == self@.has_room(),
    {
        self.seq < u64::MAX
    }

    /// Whether `n` more writes can get a sequence number each.
    pub fn has_room_for(&self, n: usize) -> (r: bool)
        ensures
            r == (self@.seq + n <= u64::MAX),
    {
        u64::MAX - self.seq >= n as u64
    }

    /// A copy of the namespace.
    pub fn duplicate(&self) -> (kv: Self)
        requires
            self.wf(),
        ensures
            kv.wf(),
            kv@ == self@,
    {
        let mut entries: KeyMap<SeqValue> = KeyMap::new();
        let ghost ks = self.entries.keys();
        let ghost vs = self.entries.values();
        let n = self.entries.len();
        let mut i: usize = 0;
        while i < n
            invariant
                self.wf(),
                ks == self.entries.keys(),
                vs == self.entries.values(),
                n == ks.len(),
                i <= n,
                entries.wf(),
                entries.keys() == ks.take(i as int),
                entries.values().len() == i,
                forall|a: int|
                    0 <= a < i ==> (#[trigger] entries.values()[a]).deep_view() == vs[a].deep_view(),
            decreases n - i,
        {
            let key = self.entries.key_at(i);
            let entry = self.entries.value_at(i);
            let ghost copied = entries.values();
            entries.push_last(key.clone(), (entry.0, entry.1.clone()));
            proof {
                assert(entries.keys() =~= ks.take(i + 1));
                assert forall|a: int| 0 <= a < i + 1 implies (#[trigger] entries.values()[a]).deep_view()
                    == vs[a].deep_view() by {
                    if a < i {
                        assert(entries.values()[a] == copied[a]);
                    }
                }
            }
            i += 1;
        }
        let kv = GenericKV { seq: self.seq, entries };
        proof {
            assert(kv.entries.keys() =~= ks);
            assert forall|k: Seq<char>| kv@.entries.contains_key(k) <==> self@.entries.contains_key(
                k,
            ) by {
                if kv.entries@.contains_key(k) {
                    let a = kv.entries.lemma_position(k);
                    self.entries.lemma_at(a);
                }
                if self.entries@.contains_key(k) {
                    let a = self.entries.lemma_position(k);
                    kv.entries.lemma_at(a);
                }
            }
            assert forall|k: Seq<char>| kv@.entries.contains_key(k) implies #[trigger] kv@.entries[k]
                == self@.entries[k] by {
                let a = kv.entries.lemma_position(k);
                self.entries.lemma_at(a);
            }
            assert(kv@.entries =~= self@.entries);
        }
        kv
    }

    /// Reads `key` at time `now`. An empty key is rejected.
    pub fn get(&self, key: &str, now: u64) -> (r: Result<GetKVActionResult, MetaError>)
        requires
            self.wf(),
        ensures
            key@.len() == 0 ==> r is Err && r->Err_0@ == empty_key_error(),
            key@.len() > 0 ==> r is Ok && r->Ok_0.result.deep_view() == self@.get(key@, now),
    {
        if key.is_empty() {
            return Err(MetaError::InvalidArgument(String::from_str("empty key")));
        }
        proof {
            self.lemma_stored(key@);
        }
        let found = filter_expired(self.entries.get(key), now);
        Ok(GetKVActionResult { result: clone_seq_value(found) })
    }

    /// Reads several keys at time `now`. The call is rejected if one of the keys
    /// is empty; else there is one slot for each key, in the order given.
    pub fn mget(&self, keys: &[String], now: u64) -> (r: Result<MGetKVActionResult, MetaError>)
        requires
            self.wf(),
        ensures
            (exists|i: int| 0 <= i < keys@.len() && keys@[i]@.len() == 0) ==> r is Err
                && r->Err_0@ == empty_key_error(),
            (forall|i: int| 0 <= i < keys@.len() ==> keys@[i]@.len() > 0) ==> r is Ok
                && r->Ok_0.result.deep_view() == self@.mget(key_views(keys@), now),
    {
        let mut out: Vec<Option<SeqValue>> = Vec::new();
        let mut i: usize = 0;
        while i < keys.len()
            invariant
                self.wf(),
                i <= keys@.len(),
                out@.len() == i,
                forall|j: int| 0 <= j < i ==> keys@[j]@.len() > 0,
                forall|j: int|
                    0 <= j < i ==> (#[trigger] out@[j]).deep_view() == self@.get(keys@[j]@, now),
            decreases keys@.len() - i,
        {
            let key = keys[i].as_str();
            if key.is_empty() {
                return Err(MetaError::InvalidArgument(String::from_str("empty key")));
            }
            proof {
                self.lemma_stored(key@);
            }
            let found = filter_expired(self.entries.get(key), now);
            out.push(clone_seq_value(found));
            i += 1;
        }
        assert(out.deep_view() =~= self@.mget(key_views(keys@), now));
        Ok(MGetKVActionResult { result: out })
    }

    /// Lists, in key order, the entries whose key starts with `prefix` and that
    /// have not expired at time `now`.
    ///
    /// The keys that start with the prefix stand together in the order, from
    /// the place where the prefix itself would stand; the walk starts there and
    /// ends at the first key that does not start with the prefix.
    pub fn prefix_list(&self, prefix: &str, now: u64) -> (r: PrefixListReply)
        requires
            self.wf(),
        ensures
            self@.is_listing(prefix@, now, r.deep_view()),
    {
        let mut out: Vec<(String, SeqValue)> = Vec::new();
        let ghost mut from: Seq<int> = Seq::empty();
        let ghost ks = self.entries.keys();
        let ghost vs = self.entries.values();
        let n = self.entries.len();
        let (start, found) = self.entries.find(prefix);
        let mut i: usize = start;
        let mut more = true;
        proof {
            assert forall|j: int| start <= j < n implies !key_less(#[trigger] ks[j], prefix@) by {
                if found && j == start {
                    lemma_key_less_irreflexive(prefix@);
                } else {
                    lemma_key_less_asymmetric(prefix@, ks[j]);
                }
            }
            assert forall|j: int| 0 <= j < start implies !prefix@.is_prefix_of(#[trigger] ks[j]) by {
                if prefix@.is_prefix_of(ks[j]) {
                    lemma_prefix_not_after(prefix@, ks[j]);
                }
            }
        }
        while i < n && more
            invariant
                self.wf(),
                ks == self.entries.keys(),
                vs == self.entries.values(),
                n == ks.len(),
                start <= i <= n,
                forall|j: int| 0 <= j < start ==> !prefix@.is_prefix_of(#[trigger] ks[j]),
                forall|j: int| start <= j < n ==> !key_less(#[trigger] ks[j], prefix@),
                !more ==> i < n && !prefix@.is_prefix_of(ks[i as int]),
                out@.len() == from.len(),
                forall|a: int| 0 <= a < from.len() ==> start <= #[trigger] from[a] < i,
                forall|a: int, b: int| 0 <= a < b < from.len() ==> from[a] < from[b],
                forall|a: int|
                    0 <= a < from.len() ==> (#[trigger] out@[a]).0@ == ks[from[a]]
                        && out@[a].1.deep_view() == vs[from[a]].deep_view(),
                forall|a: int|
                    0 <= a < from.len() ==> self@.lists(prefix@, now, ks[#[trigger] from[a]]),
                forall|j: int|
                    0 <= j < i && self@.lists(prefix@, now, #[trigger] ks[j]) ==> exists|a: int|
                        0 <= a < from.len() && #[trigger] from[a] == j,
            decreases n - i, more as int,
        {
            let key = self.entries.key_at(i);
            if !str_starts_with(key.as_str(), prefix) {
                more = false;
            } else {
                let entry = self.entries.value_at(i);
                proof {
                    self.entries.lemma_at(i as int);
                    self.lemma_stored(ks[i as int]);
                }
                let shown = filter_expired(Some(entry), now);
                let ghost seen = from;
                if shown.is_some() {
                    let ghost shown_before = out@;
                    out.push((key.clone(), (entry.0, entry.1.clone())));
                    proof {
                        from = from.push(i as int);
                        let last = from.len() - 1;
                        assert(out@[last].0@ == ks[i as int]);
                        assert(out@[last].1.deep_view() == vs[i as int].deep_view());
                        assert(self@.lists(prefix@, now, ks[i as int]));
                        assert forall|a: int| 0 <= a < from.len() implies (#[trigger] out@[a]).0@
                            == ks[from[a]] && out@[a].1.deep_view() == vs[from[a]].deep_view() by {
                            if a < last {
                                assert(out@[a] == shown_before[a]);
                                assert(from[a] == seen[a]);
                            }
                        }
                        assert forall|a: int| 0 <= a < from.len() implies self@.lists(
                            prefix@,
                            now,
                            ks[#[trigger] from[a]],
                        ) by {
                            if a < last {
                                assert(from[a] == seen[a]);
                            }
                        }
                    }
                }
                proof {
                    assert forall|j: int|
                        0 <= j < i + 1 && self@.lists(
                            prefix@,
                            now,
                            #[trigger] ks[j],
                        ) implies exists|a: int| 0 <= a < from.len() && #[trigger] from[a] == j by {
                        if j < i {
                            let a = choose|a: int| 0 <= a < seen.len() && #[trigger] seen[a] == j;
                            assert(from[a] == j);
                        } else {
                            assert(from[from.len() - 1] == i);
                        }
                    }
                }
                i += 1;
            }
        }
        proof {
            let listing = out.deep_view();
            let keys = Seq::new(listing.len(), |i: int| listing[i].0);
            assert forall|j: int| i <= j < n implies !prefix@.is_prefix_of(#[trigger] ks[j]) by {
                if j > i {
                    assert(key_less(ks[i as int], ks[j]));
                    lemma_prefix_block(prefix@, ks[i as int], ks[j]);
                }
            }
            assert forall|a: int| 0 <= a < listing.len() implies listing[a].0 == ks[from[a]]
                && listing[a].1 == vs[from[a]].deep_view() by {
                assert(listing[a] == out@[a].deep_view());
            }
            assert forall|a: int, b: int| 0 <= a < b < keys.len() implies key_less(
                #[trigger] keys[a],
                #[trigger] keys[b],
            ) by {
                assert(from[a] < from[b]);
            }
            assert forall|a: int| 0 <= a < listing.len() implies self@.lists(
                prefix@,
                now,
                #[trigger] listing[a].0,
            ) && Some(listing[a].1) == self@.get(listing[a].0, now) by {
                self.entries.lemma_at(from[a]);
                self.lemma_stored(ks[from[a]]);
            }
            assert forall|k: Seq<char>| #[trigger] self@.lists(prefix@, now, k) implies exists|
                a: int,
            |
                0 <= a < listing.len() && #[trigger] listing[a].0 == k by {
                self.lemma_stored(k);
                let j = self.entries.lemma_position(k);
                let a = choose|a: int| 0 <= a < from.len() && #[trigger] from[a] == j;
                assert(listing[a].0 == k);
            }
        }
        out
    }

    /// Writes under `key` at time `now`, if the condition `seq` holds. With a
    /// value the write puts it there; without one it removes the key. An empty
    /// key is rejected and nothing changes.
    pub fn upsert(
        &mut self,
        key: &str,
        seq: MatchSeq,
        value: Option<Vec<u8>>,
        value_meta: Option<KVMeta>,
        now: u64,
    ) -> (r: Result<UpsertKVActionResult, MetaError>)
        requires
            old(self).wf(),
            old(self)@.has_room(),
        ensures
            final(self).wf(),
            key@.len() == 0 ==> r is Err && r->Err_0@ == empty_key_error() && final(self)@ == old(
                self,
            )@,
            key@.len() > 0 ==> r is Ok && (final(self)@, r->Ok_0@) == old(self)@.upsert(
                key@,
                seq,
                opt_bytes(value),
                value_meta,
                now,
            ),
    {
        if key.is_empty() {
            return Err(MetaError::InvalidArgument(String::from_str("empty key")));
        }
        proof {
            self.lemma_stored(key@);
        }
        let ghost before = self@;
        let prev = clone_seq_value(filter_expired(self.entries.get(key), now));
        let current = match &prev {
            Some(e) => Some(e.0),
            None => None,
        };
        if !seq.match_seq(current) {
            let result = clone_seq_value(prev.as_ref());
            return Ok(UpsertKVActionResult { prev, result });
        }
        self.seq = self.seq + 1;
        match value {
            Some(v) => {
                let kept = match &prev {
                    Some(e) => e.1.meta,
                    None => None,
                };
                let meta = if value_meta.is_some() {
                    value_meta
                } else {
                    kept
                };
                let result = Some((self.seq, KVValue { meta, value: v.clone() }));
                let entry = (self.seq, KVValue { meta, value: v });
                self.entries.put(key.to_owned(), entry);
                proof {
                    let after = before.upsert(key@, seq, opt_bytes(value), value_meta, now).0;
                    assert(self@.entries =~= after.entries);
                    assert(self@ == after);
                    lemma_upsert_wf(before, key@, seq, opt_bytes(value), value_meta, now);
                }
                Ok(UpsertKVActionResult { prev, result })
            },
            None => {
                self.entries.take(key);
                proof {
                    let after = before.upsert(key@, seq, opt_bytes(value), value_meta, now).0;
                    assert(self@.entries =~= after.entries);
                    assert(self@ == after);
                    lemma_upsert_wf(before, key@, seq, opt_bytes(value), value_meta, now);
                }
                Ok(UpsertKVActionResult { prev, result: None })
            },
        }
    }

    /// Replaces the metadata of the entry under `key` at time `now`, if the
    /// condition `seq` holds and there is such an entry. The value stays. An
    /// empty key is rejected and nothing changes.
    pub fn update_meta(
        &mut self,
        key: &str,
        seq: MatchSeq,
        value_meta: Option<KVMeta>,
        now: u64,
    ) -> (r: Result<UpsertKVActionResult, MetaError>)
        requires
            old(self).wf(),
            old(self)@.has_room(),
        ensures
            final(self).wf(),
            key@.len() == 0 ==> r is Err && r->Err_0@ == empty_key_error() && final(self)@ == old(
                self,
            )@,
            key@.len() > 0 ==> r is Ok && (final(self)@, r->Ok_0@) == old(self)@.update_meta(
                key@,
                seq,
                value_meta,
                now,
            ),
    {
        if key.is_empty() {
            return Err(MetaError::InvalidArgument(String::from_str("empty key")));
        }
        proof {
            self.lemma_stored(key@);
        }
        let ghost before = self@;
        let prev = clone_seq_value(filter_expired(self.entries.get(key), now));
        let current = match &prev {
            Some(e) => Some(e.0),
            None => None,
        };
        if !seq.match_seq(current) {
            let result = clone_seq_value(prev.as_ref());
            return Ok(UpsertKVActionResult { prev, result });
        }
        match &prev {
            Some(e) => {
                self.seq = self.seq + 1;
                let result = Some((self.seq, KVValue { meta: value_meta, value: e.1.value.clone() }));
                let entry = (self.seq, KVValue { meta: value_meta, value: e.1.value.clone() });
                self.entries.put(key.to_owned(), entry);
                proof {
                    let after = before.update_meta(key@, seq, value_meta, now).0;
                    assert(self@.entries =~= after.entries);
                    assert(self@ == after);
                    lemma_update_meta_wf(before, key@, seq, value_meta, now);
                }
                Ok(UpsertKVActionResult { prev, result })
            },
            None => Ok(UpsertKVActionResult { prev: None, result: None }),
        }
    }
}

/// A write to a non-empty key keeps the namespace well-formed.
pub proof fn lemma_upsert_wf(
    s: KvState,
    key: Seq<char>,
    cond: MatchSeq,
    value: Option<Seq<u8>>,
    meta: Option<KVMeta>,
    now: u64,
)
    requires
        s.wf(),
        s.has_room(),
        key.len() > 0,
    ensures
        s.upsert(key, cond, value, meta, now).0.wf(),
{
    let t = s.upsert(key, cond, value, meta, now).0;
    assert forall|k: Seq<char>| #[trigger] t.entries.contains_key(k) implies k.len() > 0 && 1
        <= t.entries[k].0 <= t.seq by {
        if k != key {
            assert(s.entries.contains_key(k));
        }
    }
    assert forall|k1: Seq<char>, k2: Seq<char>|
        #![trigger t.entries[k1], t.entries[k2]]
        t.entries.contains_key(k1) && t.entries.contains_key(k2) && k1 != k2 implies t.entries[k1].0
        != t.entries[k2].0 by {
        if k1 != key {
            assert(s.entries.contains_key(k1));
        }
        if k2 != key {
            assert(s.entries.contains_key(k2));
        }
    }
}

/// A change of metadata under a non-empty key keeps the namespace well-formed.
pub proof fn lemma_update_meta_wf(
    s: KvState,
    key: Seq<char>,
    cond: MatchSeq,
    meta: Option<KVMeta>,
    now: u64,
)
    requires
        s.wf(),
        s.has_room(),
        key.len() > 0,
    ensures
        s.update_meta(key, cond, meta, now).0.wf(),
{
    let t = s.update_meta(key, cond, meta, now).0;
    assert forall|k: Seq<char>| #[trigger] t.entries.contains_key(k) implies k.len() > 0 && 1
        <= t.entries[k].0 <= t.seq by {
        if k != key {
            assert(s.entries.contains_key(k));
        }
    }
    assert forall|k1: Seq<char>, k2: Seq<char>|
        #![trigger t.entries[k1], t.entries[k2]]
        t.entries.contains_key(k1) && t.entries.contains_key(k2) && k1 != k2 implies t.entries[k1].0
        != t.entries[k2].0 by {
        if k1 != key {
            assert(s.entries.contains_key(k1));
        }
        if k2 != key {
            assert(s.entries.contains_key(k2));
        }
    }
}

} // verus!
