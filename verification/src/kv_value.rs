//! What the key-value namespace stores under a key, and when it stops being
//! visible.

use vstd::prelude::*;

verus! {

/// Metadata that is attached to a stored value, apart from the value itself.
#[derive(Clone, Copy, Debug, PartialEq, Eq)]
pub struct KVMeta {
    /// The time, in seconds since the Unix epoch, from which the entry is no
    /// longer visible.
    pub expire_at: Option<u64>,
}

impl KVMeta {
    /// Whether an entry with this metadata has expired at time `now`.
    pub open spec fn expired(self, now: u64) -> bool {
        match self.expire_at {
            Some(t) => now >= t,
            None => false,
        }
    }

    /// Tells whether an entry with this metadata has expired at time `now`.
    pub fn is_expired(&self, now: u64) -> (r: bool)
        ensures
            r == self.expired(now),
    {
        match self.expire_at {
            Some(t) => now >= t,
            None => false,
        }
    }
}

/// Whether optional metadata makes an entry expired at time `now`. An entry
/// without metadata never expires.
pub open spec fn meta_expired(meta: Option<KVMeta>, now: u64) -> bool {
    match meta {
        Some(m) => m.expired(now),
        None => false,
    }
}

/// A stored value: the bytes, and the metadata that goes with them.
#[derive(Debug, PartialEq, Eq)]
pub struct KVValue {
    pub meta: Option<KVMeta>,
    pub value: Vec<u8>,
}

/// A stored value as contracts see it.
pub struct KVValueView {
    pub meta: Option<KVMeta>,
    pub value: Seq<u8>,
}

impl View for KVValue {
    type V = KVValueView;

    open spec fn view(&self) -> KVValueView {
        KVValueView { meta: self.meta, value: self.value@ }
    }
}

impl DeepView for KVValue {
    type V = KVValueView;

    open spec fn deep_view(&self) -> KVValueView {
        self@
    }
}

impl Clone for KVValue {
    fn clone(&self) -> (r: Self)
        ensures
            r@ == self@,
    {
        KVValue { meta: self.meta, value: self.value.clone() }
    }
}

/// A stored value with the sequence number of the write that put it there.
pub type SeqValue = (u64, KVValue);

/// A `SeqValue` as contracts see it.
pub type SeqValueView = (u64, KVValueView);

/// The expiry filter: an entry that has expired at time `now` counts as absent,
/// any other entry is passed on unchanged.
pub open spec fn unexpired(entry: Option<SeqValueView>, now: u64) -> Option<SeqValueView> {
    match entry {
        Some(e) => if meta_expired(e.1.meta, now) {
            None
        } else {
            Some(e)
        },
        None => None,
    }
}

/// The sequence number of an entry, if there is one.
pub open spec fn seq_of(entry: Option<SeqValueView>) -> Option<u64> {
    match entry {
        Some(e) => Some(e.0),
        None => None,
    }
}

/// Applies the expiry filter to a stored entry: `None` if the entry has
/// expired at time `now`, else the entry as it is.
pub fn filter_expired<'a>(entry: Option<&'a SeqValue>, now: u64) -> (r: Option<&'a SeqValue>)
    ensures
        r.deep_view() == unexpired(entry.deep_view(), now),
        r is Some ==> r == entry,
{
    match entry {
        Some(e) => {
            let expired = match &e.1.meta {
                Some(m) => m.is_expired(now),
                None => false,
            };
            if expired {
                None
            } else {
                Some(e)
            }
        },
        None => None,
    }
}

/// A copy of an optional entry.
pub fn clone_seq_value(entry: Option<&SeqValue>) -> (r: Option<SeqValue>)
    ensures
        r.deep_view() == entry.deep_view(),
{
    match entry {
        Some(e) => Some((e.0, e.1.clone())),
        None => None,
    }
}

} // verus!
