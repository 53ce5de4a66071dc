//! The store: keys with their values, the ordered index of their
//! expirations, the feeds of the pub/sub channels, and the rules by which
//! they change.

use crate::feed::{new_feed, receiver_on, send_on, FEED_CAPACITY};
use crate::order::{first_key, lemma_pairs_are_ordered, not_after};
use bytes::Bytes;
use std::collections::BTreeMap;
use tokio::sync::broadcast::{Receiver, Sender};
use vstd::hash_map::StringHashMap;
use vstd::prelude::*;
use vstd::slice::slice_to_vec;

verus! {

/// One stored value.
#[derive(Debug)]
pub struct Entry {
    /// Identifies the insertion that made this entry.
    pub id: u64,
    pub data: Vec<u8>,
    /// The instant at which the entry expires, in milliseconds of the
    /// store's clock.
    pub expires_at: Option<u64>,
}

/// The mathematical value of an entry, without its key.
pub struct EntryView {
    pub id: u64,
    pub data: Seq<u8>,
    pub expires_at: Option<u64>,
}

pub open spec fn entry_view(e: Entry) -> EntryView {
    EntryView { id: e.id, data: e.data@, expires_at: e.expires_at }
}

/// The mathematical value of the store.
pub struct DbView {
    /// The live entries by key.
    pub entries: Map<Seq<char>, EntryView>,
    /// The channels that were ever subscribed to.
    pub channels: Set<Seq<char>>,
    /// The identifier that the next insertion gets.
    pub next_id: u64,
    pub shutdown: bool,
}

/// The store's state. One value of it is shared by all connections, behind
/// whatever exclusion the caller provides.
pub struct Db {
    entries: StringHashMap<Entry>,
    /// The expiration index: the key of each entry that expires, under
    /// its instant and its identifier, ordered by instant and then by
    /// identifier.
    expirations: BTreeMap<(u64, u64), String>,
    /// The feed of each channel that was ever subscribed to.
    feeds: StringHashMap<Sender<Bytes>>,
    next_id: u64,
    shutdown: bool,
}

/// The entry has an expiration and it is not later than `now`.
pub open spec fn expired(e: EntryView, now: u64) -> bool {
    e.expires_at matches Some(when) && when <= now
}

/// The expiration index that belongs to `m`: one pair of instant and
/// identifier for each entry that expires.
pub open spec fn expirations(m: Map<Seq<char>, EntryView>) -> Set<(u64, u64)> {
    Set::new(
        |p: (u64, u64)|
            exists|k: Seq<char>| #[trigger]
                m.dom().contains(k) && m[k].expires_at == Some(p.0) && m[k].id == p.1,
    )
}

/// `r` is the earliest expiration among the entries of `m`, or nothing if no
/// entry expires.
pub open spec fn is_next_expiration(m: Map<Seq<char>, EntryView>, r: Option<u64>) -> bool {
    match r {
        None => forall|k: Seq<char>| #[trigger] m.dom().contains(k) ==> m[k].expires_at is None,
        Some(w) => (exists|k: Seq<char>| #[trigger] m.dom().contains(k) && m[k].expires_at == Some(w))
            && forall|k: Seq<char>| #[trigger]
            m.dom().contains(k) ==> (m[k].expires_at matches Some(x) ==> w <= x),
    }
}

/// Identifiers were handed out in order and none twice.
pub open spec fn valid(v: DbView) -> bool {
    &&& forall|k: Seq<char>| #[trigger] v.entries.dom().contains(k) ==> v.entries[k].id < v.next_id
    &&& forall|j: Seq<char>, k: Seq<char>|
        #![trigger v.entries[j], v.entries[k]]
        v.entries.dom().contains(j) && v.entries.dom().contains(k) && j != k ==> v.entries[j].id
            != v.entries[k].id
}

/// The store before anything was stored.
pub open spec fn empty_view() -> DbView {
    DbView { entries: Map::empty(), channels: Set::empty(), next_id: 0, shutdown: false }
}

/// The value stored under `key`, if any.
pub open spec fn get_spec(v: DbView, key: Seq<char>) -> Option<Seq<u8>> {
    if v.entries.dom().contains(key) {
        Some(v.entries[key].data)
    } else {
        None
    }
}

/// The store after `value` was stored under `key`.
pub open spec fn set_spec(v: DbView, key: Seq<char>, value: Seq<u8>, expires_at: Option<u64>) -> DbView {
    DbView {
        entries: v.entries.insert(key, EntryView { id: v.next_id, data: value, expires_at }),
        next_id: (v.next_id + 1) as u64,
        ..v
    }
}

/// Whether storing an entry that expires at `expires_at` makes it the next
/// one to expire, so that whoever waits for expirations must be woken.
pub open spec fn wakes_reaper(v: DbView, expires_at: Option<u64>) -> bool {
    expires_at matches Some(when) && forall|k: Seq<char>| #[trigger]
        v.entries.dom().contains(k) ==> (v.entries[k].expires_at matches Some(x) ==> x > when)
}

/// The store after every entry that has expired by `now` was removed.
/// A store that was shut down is left as it is.
pub open spec fn purge_spec(v: DbView, now: u64) -> DbView {
    if v.shutdown {
        v
    } else {
        DbView {
            entries: Map::new(
                |k: Seq<char>| v.entries.dom().contains(k) && !expired(v.entries[k], now),
                |k: Seq<char>| v.entries[k],
            ),
            ..v
        }
    }
}

/// The values of the entries that the map holds.
spec fn model(entries: Map<Seq<char>, Entry>) -> Map<Seq<char>, EntryView> {
    Map::new(|k: Seq<char>| entries.dom().contains(k), |k: Seq<char>| entry_view(entries[k]))
}

proof fn lemma_model_insert(entries: Map<Seq<char>, Entry>, key: Seq<char>, e: Entry)
    ensures
        model(entries.insert(key, e)) == model(entries).insert(key, entry_view(e)),
{
    assert(model(entries.insert(key, e)) =~= model(entries).insert(key, entry_view(e)));
}

proof fn lemma_model_remove(entries: Map<Seq<char>, Entry>, key: Seq<char>)
    ensures
        model(entries.remove(key)) == model(entries).remove(key),
{
    assert(model(entries.remove(key)) =~= model(entries).remove(key));
}

/// The index holds a record for an entry if and only if the entry is live
/// and expires: the record stands under the entry's instant and identifier
/// and holds the entry's key.
spec fn recorded(x: Map<(u64, u64), String>, m: Map<Seq<char>, EntryView>) -> bool {
    &&& forall|p: (u64, u64)| #[trigger]
        x.contains_key(p) ==> m.dom().contains(x[p]@) && m[x[p]@].id == p.1 && m[x[p]@].expires_at
            == Some(p.0)
    &&& forall|k: Seq<char>| #[trigger]
        m.dom().contains(k) && m[k].expires_at is Some ==> x.contains_key(
            (m[k].expires_at->Some_0, m[k].id),
        ) && x[(m[k].expires_at->Some_0, m[k].id)]@ == k
}

spec fn unique_ids(m: Map<Seq<char>, EntryView>) -> bool {
    forall|j: Seq<char>, k: Seq<char>|
        #![trigger m[j], m[k]]
        m.dom().contains(j) && m.dom().contains(k) && j != k ==> m[j].id != m[k].id
}

/// `r` is the least key of the index, or nothing if the index is empty.
spec fn is_first(x: Map<(u64, u64), String>, r: Option<(u64, u64)>) -> bool {
    match r {
        Some(k) => x.contains_key(k) && forall|j: (u64, u64)| #[trigger]
            x.contains_key(j) ==> not_after(k, j),
        None => forall|j: (u64, u64)| !#[trigger] x.contains_key(j),
    }
}

proof fn lemma_drop_record(x: Map<(u64, u64), String>, m: Map<Seq<char>, EntryView>, key: Seq<char>)
    requires
        recorded(x, m),
        m.dom().contains(key),
        m[key].expires_at is Some,
    ensures
        recorded(x.remove((m[key].expires_at->Some_0, m[key].id)), m.remove(key)),
{
    let at = (m[key].expires_at->Some_0, m[key].id);
    let y = x.remove(at);
    let gone = m.remove(key);
    assert(x.contains_key(at) && x[at]@ == key);
    assert forall|p: (u64, u64)| #[trigger] y.contains_key(p) implies gone.dom().contains(y[p]@)
        && gone[y[p]@].id == p.1 && gone[y[p]@].expires_at == Some(p.0) by {
        assert(x.contains_key(p));
    }
    assert forall|k: Seq<char>| #[trigger] gone.dom().contains(k) && gone[k].expires_at is Some implies y.contains_key(
        (gone[k].expires_at->Some_0, gone[k].id),
    ) && y[(gone[k].expires_at->Some_0, gone[k].id)]@ == k by {
        assert(m.dom().contains(k));
    }
}

proof fn lemma_keep_records(x: Map<(u64, u64), String>, m: Map<Seq<char>, EntryView>, key: Seq<char>)
    requires
        recorded(x, m),
        m.dom().contains(key) ==> m[key].expires_at is None,
    ensures
        recorded(x, m.remove(key)),
{
    let gone = m.remove(key);
    assert forall|p: (u64, u64)| #[trigger] x.contains_key(p) implies gone.dom().contains(x[p]@)
        && gone[x[p]@].id == p.1 && gone[x[p]@].expires_at == Some(p.0) by {
        assert(m.dom().contains(x[p]@));
    }
    assert forall|k: Seq<char>| #[trigger] gone.dom().contains(k) && gone[k].expires_at is Some implies x.contains_key(
        (gone[k].expires_at->Some_0, gone[k].id),
    ) && x[(gone[k].expires_at->Some_0, gone[k].id)]@ == k by {
        assert(m.dom().contains(k));
    }
}

proof fn lemma_add_record(
    x: Map<(u64, u64), String>,
    m: Map<Seq<char>, EntryView>,
    name: String,
    e: EntryView,
)
    requires
        recorded(x, m),
        !m.dom().contains(name@),
        forall|k: Seq<char>| #[trigger] m.dom().contains(k) ==> m[k].id != e.id,
        e.expires_at is Some,
    ensures
        recorded(x.insert((e.expires_at->Some_0, e.id), name), m.insert(name@, e)),
{
    let at = (e.expires_at->Some_0, e.id);
    let y = x.insert(at, name);
    let more = m.insert(name@, e);
    assert forall|p: (u64, u64)| #[trigger] y.contains_key(p) implies more.dom().contains(y[p]@)
        && more[y[p]@].id == p.1 && more[y[p]@].expires_at == Some(p.0) by {
        if p != at {
            assert(x.contains_key(p));
            assert(m.dom().contains(x[p]@));
        }
    }
    assert forall|k: Seq<char>| #[trigger] more.dom().contains(k) && more[k].expires_at is Some implies y.contains_key(
        (more[k].expires_at->Some_0, more[k].id),
    ) && y[(more[k].expires_at->Some_0, more[k].id)]@ == k by {
        if k != name@ {
            assert(m.dom().contains(k));
        }
    }
}

proof fn lemma_add_plain(x: Map<(u64, u64), String>, m: Map<Seq<char>, EntryView>, key: Seq<char>, e: EntryView)
    requires
        recorded(x, m),
        !m.dom().contains(key),
        e.expires_at is None,
    ensures
        recorded(x, m.insert(key, e)),
{
    let more = m.insert(key, e);
    assert forall|p: (u64, u64)| #[trigger] x.contains_key(p) implies more.dom().contains(x[p]@)
        && more[x[p]@].id == p.1 && more[x[p]@].expires_at == Some(p.0) by {
        assert(m.dom().contains(x[p]@));
    }
    assert forall|k: Seq<char>| #[trigger] more.dom().contains(k) && more[k].expires_at is Some implies x.contains_key(
        (more[k].expires_at->Some_0, more[k].id),
    ) && x[(more[k].expires_at->Some_0, more[k].id)]@ == k by {
        assert(m.dom().contains(k));
    }
}

proof fn lemma_first_is_next(x: Map<(u64, u64), String>, m: Map<Seq<char>, EntryView>, r: Option<(u64, u64)>)
    requires
        recorded(x, m),
        is_first(x, r),
    ensures
        is_next_expiration(
            m,
            match r {
                Some(k) => Some(k.0),
                None => None,
            },
        ),
{
    match r {
        Some(first) => {
            assert(m.dom().contains(x[first]@) && m[x[first]@].expires_at == Some(first.0));
            assert forall|k: Seq<char>| #[trigger] m.dom().contains(k) implies (m[k].expires_at matches Some(w)
                ==> first.0 <= w) by {
                if m[k].expires_at is Some {
                    assert(x.contains_key((m[k].expires_at->Some_0, m[k].id)));
                }
            }
        },
        None => {
            assert forall|k: Seq<char>| #[trigger] m.dom().contains(k) implies m[k].expires_at is None by {
                if m[k].expires_at is Some {
                    assert(x.contains_key((m[k].expires_at->Some_0, m[k].id)));
                }
            }
        },
    }
}

/// Whether the least record of the index, if there is one, is due at `now`.
fn due(first: Option<(u64, u64)>, now: u64) -> (b: bool)
    ensures
        b == (first matches Some(k) && k.0 <= now),
{
    match first {
        Some(k) => k.0 <= now,
        None => false,
    }
}

impl View for Db {
    type V = DbView;

    closed spec fn view(&self) -> DbView {
        DbView {
            entries: model(self.entries@),
            channels: self.feeds@.dom(),
            next_id: self.next_id,
            shutdown: self.shutdown,
        }
    }
}

impl Db {
    /// The store is well formed: its value is valid and its expiration index
    /// matches its entries.
    pub closed spec fn wf(&self) -> bool {
        &&& valid(self@)
        &&& recorded(self.expirations@, model(self.entries@))
    }

    /// The expiration index as it is held: the pairs of instant and
    /// identifier under which it has a record.
    pub closed spec fn index(&self) -> Set<(u64, u64)> {
        self.expirations@.dom()
    }

    /// The index holds a pair if and only if a live entry expires at that
    /// instant under that identifier.
    pub proof fn index_is_exact(&self)
        requires
            self.wf(),
        ensures
            self.index() == expirations(self@.entries),
    {
        let x = self.expirations@;
        let m = model(self.entries@);
        assert forall|p: (u64, u64)| expirations(m).contains(p) implies x.contains_key(p) by {
            let k = choose|k: Seq<char>| #[trigger]
                m.dom().contains(k) && m[k].expires_at == Some(p.0) && m[k].id == p.1;
            assert(x.contains_key((m[k].expires_at->Some_0, m[k].id)));
        }
        assert forall|p: (u64, u64)| x.contains_key(p) implies expirations(m).contains(p) by {
            assert(m.dom().contains(x[p]@));
        }
        assert(self.index() =~= expirations(self@.entries));
    }

    /// The feeds of the channels, each under its channel's name.
    pub closed spec fn feeds(&self) -> Map<Seq<char>, Sender<Bytes>> {
        self.feeds@
    }

    /// A well-formed store has a valid value and one feed for each channel.
    pub broadcast proof fn wf_is_valid(&self)
        requires
            #[trigger] self.wf(),
        ensures
            valid(self@),
            self.feeds().dom() == self@.channels,
    {
    }

    /// An empty store.
    pub fn new() -> (db: Db)
        ensures
            db.wf(),
            db@ == empty_view(),
            db.feeds() == Map::<Seq<char>, Sender<Bytes>>::empty(),
    {
        let db = Db {
            entries: StringHashMap::new(),
            expirations: BTreeMap::new(),
            feeds: StringHashMap::new(),
            next_id: 0,
            shutdown: false,
        };
        assert(db@.entries =~= Map::<Seq<char>, EntryView>::empty());
        assert(db@.channels =~= Set::<Seq<char>>::empty());
        db
    }

    /// The value stored under `key`, if there is one. An entry whose
    /// expiration has passed is still returned until it is purged.
    pub fn get(&self, key: &str) -> (r: Option<Vec<u8>>)
        requires
            self.wf(),
        ensures
            match get_spec(self@, key@) {
                Some(d) => r is Some && r->Some_0@ == d,
                None => r is None,
            },
    {
        match self.entries.get(key) {
            Some(entry) => Some(slice_to_vec(entry.data.as_slice())),
            None => None,
        }
    }

    /// The earliest instant at which an entry expires.
    pub fn next_expiration(&self) -> (r: Option<u64>)
        requires
            self.wf(),
        ensures
            is_next_expiration(self@.entries, r),
    {
        let first = first_key(&self.expirations);
        proof {
            lemma_first_is_next(self.expirations@, model(self.entries@), first);
        }
        match first {
            Some(k) => Some(k.0),
            None => None,
        }
    }

    /// Stores `value` under `key`, in place of any value stored there, to
    /// expire at `expires_at` if that is given. Returns whether the new
    /// entry is now the next one to expire.
    pub fn set(&mut self, key: String, value: Vec<u8>, expires_at: Option<u64>) -> (notify: bool)
        requires
            old(self).wf(),
            old(self)@.next_id < u64::MAX,
        ensures
            final(self).wf(),
            final(self)@ == set_spec(old(self)@, key@, value@, expires_at),
            final(self).feeds() == old(self).feeds(),
            notify == wakes_reaper(old(self)@, expires_at),
    {
        let id: u64 = self.next_id;
        let notify = match expires_at {
            None => false,
            Some(at) => match self.next_expiration() {
                None => true,
                Some(e) => e > at,
            },
        };
        let ghost before_all = model(self.entries@);
        proof {
            lemma_pairs_are_ordered();
        }
        // The record of the entry that is replaced leaves the index first.
        let prev: Option<(u64, Option<u64>)> = match self.entries.get(key.as_str()) {
            Some(entry) => Some((entry.id, entry.expires_at)),
            None => None,
        };
        match prev {
            Some((prev_id, Some(prev_at))) => {
                proof {
                    assert(before_all[key@] == entry_view(self.entries@[key@]));
                    lemma_drop_record(self.expirations@, before_all, key@);
                }
                self.expirations.remove(&(prev_at, prev_id));
            },
            _ => {
                proof {
                    if self.entries@.contains_key(key@) {
                        assert(before_all[key@] == entry_view(self.entries@[key@]));
                    }
                    lemma_keep_records(self.expirations@, before_all, key@);
                }
            },
        }
        let ghost cleared = before_all.remove(key@);
        assert(recorded(self.expirations@, cleared));
        let ghost index = self.expirations@;
        let ghost value_view = EntryView { id, data: value@, expires_at };
        assert forall|k: Seq<char>| #[trigger] cleared.dom().contains(k) implies cleared[k].id != id by {
            assert(before_all.dom().contains(k));
        }
        match expires_at {
            Some(at) => {
                let name = key.clone();
                proof {
                    lemma_add_record(index, cleared, name, value_view);
                }
                self.expirations.insert((at, id), name);
            },
            None => {
                proof {
                    lemma_add_plain(index, cleared, key@, value_view);
                }
            },
        }
        let entry = Entry { id, data: value, expires_at };
        proof {
            lemma_model_insert(self.entries@, key@, entry);
            assert(cleared.insert(key@, entry_view(entry)) =~= before_all.insert(key@, entry_view(entry)));
        }
        self.entries.insert(key, entry);
        self.next_id = id + 1;
        assert(self@.entries == set_spec(old(self)@, key@, value@, expires_at).entries);
        notify
    }

    /// Removes every entry that has expired by `now` and returns the
    /// earliest expiration that is left. Does nothing once the store is
    /// shut down.
    pub fn purge_expired_keys(&mut self, now: u64) -> (next: Option<u64>)
        requires
            old(self).wf(),
        ensures
            final(self).wf(),
            final(self)@ == purge_spec(old(self)@, now),
            final(self).feeds() == old(self).feeds(),
            old(self)@.shutdown ==> next is None,
            !old(self)@.shutdown ==> is_next_expiration(final(self)@.entries, next),
            next matches Some(at) ==> at > now,
    {
        if self.shutdown {
            return None;
        }
        let ghost start = self@.entries;
        proof {
            lemma_pairs_are_ordered();
        }
        let mut first = first_key(&self.expirations);
        while due(first, now)
            invariant
                vstd::laws_cmp::obeys_cmp::<(u64, u64)>(),
                is_first(self.expirations@, first),
                recorded(self.expirations@, model(self.entries@)),
                unique_ids(model(self.entries@)),
                self.feeds == old(self).feeds,
                self.next_id == old(self).next_id,
                self.shutdown == old(self).shutdown,
                start == old(self)@.entries,
                valid(old(self)@),
                forall|k: Seq<char>| #[trigger]
                    model(self.entries@).dom().contains(k) ==> start.dom().contains(k) && model(
                        self.entries@,
                    )[k] == start[k],
                forall|k: Seq<char>| #[trigger]
                    start.dom().contains(k) && !expired(start[k], now) ==> model(
                        self.entries@,
                    ).dom().contains(k),
            decreases self.expirations@.dom().len(),
        {
            let ghost m = model(self.entries@);
            let ghost x = self.expirations@;
            let k = first.unwrap();
            proof {
                let name = x[k]@;
                assert(m.dom().contains(name) && m[name].expires_at == Some(k.0) && m[name].id == k.1);
                lemma_drop_record(x, m, name);
                lemma_model_remove(self.entries@, name);
                x.lemma_remove_key_len(k);
            }
            match self.expirations.get(&k) {
                Some(name) => {
                    self.entries.remove(name.as_str());
                },
                None => {},
            }
            self.expirations.remove(&k);
            first = first_key(&self.expirations);
        }
        proof {
            let want = purge_spec(old(self)@, now).entries;
            let m = model(self.entries@);
            let x = self.expirations@;
            assert forall|k: Seq<char>| m.dom().contains(k) implies !expired(start[k], now) by {
                if m[k].expires_at is Some {
                    assert(x.contains_key((m[k].expires_at->Some_0, m[k].id)));
                }
            }
            assert(m =~= want);
            lemma_first_is_next(x, m, first);
        }
        match first {
            Some(k) => Some(k.0),
            None => None,
        }
    }

    /// Marks the store as shut down. The mark stays.
    pub fn shutdown(&mut self)
        requires
            old(self).wf(),
        ensures
            final(self).wf(),
            final(self)@ == (DbView { shutdown: true, ..old(self)@ }),
            final(self).feeds() == old(self).feeds(),
    {
        self.shutdown = true;
    }

    /// The identifier that the next insertion gets.
    pub fn next_id_value(&self) -> (n: u64)
        ensures
            n == self@.next_id,
    {
        self.next_id
    }

    /// Whether another value can be stored: an identifier is left for it.
    pub fn has_room(&self) -> (b: bool)
        ensures
            b == (self@.next_id < u64::MAX),
    {
        self.next_id < u64::MAX
    }

    pub fn is_shutdown(&self) -> (b: bool)
        ensures
            b == self@.shutdown,
    {
        self.shutdown
    }

    /// Registers a subscriber to the channel `key` and returns a new
    /// receiver on the channel's feed. A channel that is new gets its feed
    /// first. A channel keeps its feed for good: the feeds that the store
    /// held stay as they are. Keys and their expirations are not touched.
    pub fn subscribe(&mut self, key: String) -> (rx: Receiver<Bytes>)
        requires
            old(self).wf(),
        ensures
            final(self).wf(),
            final(self)@ == (DbView { channels: old(self)@.channels.insert(key@), ..old(self)@ }),
            old(self)@.channels.contains(key@) ==> final(self).feeds() == old(self).feeds(),
            !old(self)@.channels.contains(key@) ==> final(self).feeds().remove(key@) == old(self).feeds(),
    {
        match self.feeds.get(key.as_str()) {
            Some(feed) => {
                assert(self@.channels.insert(key@) =~= self@.channels);
                receiver_on(feed)
            },
            None => {
                let (tx, rx) = new_feed(FEED_CAPACITY);
                self.feeds.insert(key, tx);
                assert(self@.channels =~= old(self)@.channels.insert(key@));
                assert(self.feeds().remove(key@) =~= old(self).feeds());
                rx
            },
        }
    }

    /// The feed of the channel `key`, if anybody ever subscribed to it: the
    /// one that the store made at the first subscription.
    pub fn feed(&self, key: &str) -> (r: Option<&Sender<Bytes>>)
        requires
            self.wf(),
        ensures
            match r {
                Some(tx) => self@.channels.contains(key@) && *tx == self.feeds()[key@],
                None => !self@.channels.contains(key@),
            },
    {
        self.feeds.get(key)
    }

    /// Sends `value` to the subscribers of the channel `key` and returns how
    /// many there were: none on a channel that nobody ever subscribed to,
    /// and otherwise as many as the channel's feed reports.
    pub fn publish(&self, key: &str, value: Vec<u8>) -> (n: usize)
        requires
            self.wf(),
        ensures
            !self@.channels.contains(key@) ==> n == 0,
    {
        let sent = match self.feeds.get(key) {
            Some(feed) => send_on(feed, value),
            None => None,
        };
        subscriber_count(sent)
    }
}

/// The number of subscribers that a publication reached: what the feed
/// reported, and zero where there was no feed or it had no receiver.
pub fn subscriber_count(sent: Option<usize>) -> (n: usize)
    ensures
        n == match sent {
            Some(k) => k,
            None => 0,
        },
{
    match sent {
        Some(k) => k,
        None => 0,
    }
}

/// A value that was just stored is the value that is read.
pub proof fn get_after_set(v: DbView, key: Seq<char>, value: Seq<u8>, expires_at: Option<u64>)
    ensures
        get_spec(set_spec(v, key, value, expires_at), key) == Some(value),
{
}

/// Nothing is read under a key that was never set: the empty store holds
/// no key, storing under another key adds none, and purging adds none.
pub proof fn get_without_set(
    v: DbView,
    key: Seq<char>,
    other: Seq<char>,
    value: Seq<u8>,
    expires_at: Option<u64>,
    now: u64,
)
    requires
        other != key,
    ensures
        get_spec(empty_view(), key) is None,
        get_spec(v, key) is None ==> get_spec(set_spec(v, other, value, expires_at), key) is None,
        get_spec(v, key) is None ==> get_spec(purge_spec(v, now), key) is None,
{
}

/// An entry is gone once a purge runs at or after its expiration, in a
/// store that was not shut down.
pub proof fn expired_entry_is_purged(v: DbView, key: Seq<char>, value: Seq<u8>, instant: u64, now: u64)
    requires
        !v.shutdown,
        instant <= now,
    ensures
        get_spec(purge_spec(set_spec(v, key, value, Some(instant)), now), key) is None,
{
}

/// Two keys that expire at the same instant have different records in the
/// expiration index, told apart by their identifiers, and a purge at or
/// after that instant removes both entries and both records.
pub proof fn same_instant_entries_are_both_purged(
    v: DbView,
    first: Seq<char>,
    second: Seq<char>,
    a: Seq<u8>,
    b: Seq<u8>,
    instant: u64,
    now: u64,
)
    requires
        valid(v),
        !v.shutdown,
        first != second,
        instant <= now,
        v.next_id + 1 < u64::MAX,
    ensures
        ({
            let stored = set_spec(set_spec(v, first, a, Some(instant)), second, b, Some(instant));
            let purged = purge_spec(stored, now);
            &&& stored.entries[first].id != stored.entries[second].id
            &&& expirations(stored.entries).contains((instant, stored.entries[first].id))
            &&& expirations(stored.entries).contains((instant, stored.entries[second].id))
            &&& get_spec(purged, first) is None
            &&& get_spec(purged, second) is None
            &&& !expirations(purged.entries).contains((instant, stored.entries[first].id))
            &&& !expirations(purged.entries).contains((instant, stored.entries[second].id))
        }),
{
    let stored = set_spec(set_spec(v, first, a, Some(instant)), second, b, Some(instant));
    assert(stored.entries.dom().contains(first));
    assert(stored.entries.dom().contains(second));
}

/// Whoever publishes on a channel after a subscription to it finds the
/// channel; a channel that was subscribed to stays; and in the empty store
/// there is no channel to publish on.
pub proof fn published_channel_is_found(v: DbView, name: Seq<char>, other: Seq<char>)
    ensures
        !empty_view().channels.contains(name),
        (DbView { channels: v.channels.insert(name), ..v }).channels.contains(name),
        v.channels.contains(name) ==> (DbView { channels: v.channels.insert(other), ..v }).channels.contains(
            name,
        ),
{
}

/// Storing keeps a valid store valid.
pub proof fn set_keeps_valid(v: DbView, key: Seq<char>, value: Seq<u8>, expires_at: Option<u64>)
    requires
        valid(v),
        v.next_id < u64::MAX,
    ensures
        valid(set_spec(v, key, value, expires_at)),
{
}

} // verus!
