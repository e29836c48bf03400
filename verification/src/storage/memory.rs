//! A store that keeps everything in memory, lost when the process ends.

use crate::storage::types::{
    InboundRecord, InflightRecord, PersistedInboundQos2Message, PersistedInflightMessage,
    PersistedRetainedMessage, PersistedSession, PersistedSubscription, Record, RetainedRecord,
    SessionRecord, StorageError, SubscriptionRecord,
};
use vstd::prelude::*;

verus! {

/// A record stored under a key it carries itself.
pub trait KeyedRecord: Record {
    spec fn key_of(v: Self::V) -> Seq<char>;

    fn key(&self) -> (r: &String)
        ensures
            r@ == Self::key_of(self@),
    ;
}

impl KeyedRecord for PersistedSession {
    open spec fn key_of(v: SessionRecord) -> Seq<char> {
        v.client_id
    }

    fn key(&self) -> (r: &String) {
        &self.client_id
    }
}

impl KeyedRecord for PersistedRetainedMessage {
    open spec fn key_of(v: RetainedRecord) -> Seq<char> {
        v.topic
    }

    fn key(&self) -> (r: &String) {
        &self.topic
    }
}

pub open spec fn records_view<T: View>(v: Seq<T>) -> Seq<T::V> {
    v.map_values(|x: T| x@)
}

pub open spec fn pairs_view<T: View>(v: Seq<(String, T)>) -> Seq<(Seq<char>, T::V)> {
    v.map_values(|p: (String, T)| (p.0@, p.1@))
}

/// Entry `j` of `s` has key `k`.
pub open spec fn keyed_at<T: KeyedRecord>(s: Seq<T::V>, j: int, k: Seq<char>) -> bool {
    0 <= j < s.len() && T::key_of(s[j]) == k
}

/// No two entries share a key.
pub open spec fn unique_keyed<T: KeyedRecord>(s: Seq<T::V>) -> bool {
    forall|i: int, j: int|
        #![trigger s[i], s[j]]
        0 <= i < s.len() && 0 <= j < s.len() && T::key_of(s[i]) == T::key_of(s[j]) ==> i == j
}

/// Whether some entry has key `k`.
pub open spec fn has_keyed<T: KeyedRecord>(s: Seq<T::V>, k: Seq<char>) -> bool {
    exists|j: int| keyed_at::<T>(s, j, k)
}

/// The entry with key `k`.
pub open spec fn keyed<T: KeyedRecord>(s: Seq<T::V>, k: Seq<char>) -> T::V {
    s[choose|j: int| keyed_at::<T>(s, j, k)]
}

/// `s` with `v` stored under its key: in place of the entry with that key, or
/// added at the end.
pub open spec fn put_keyed<T: KeyedRecord>(s: Seq<T::V>, v: T::V) -> Seq<T::V> {
    if has_keyed::<T>(s, T::key_of(v)) {
        s.update(choose|j: int| keyed_at::<T>(s, j, T::key_of(v)), v)
    } else {
        s.push(v)
    }
}

/// `s` without the entry with key `k`.
pub open spec fn drop_keyed<T: KeyedRecord>(s: Seq<T::V>, k: Seq<char>) -> Seq<T::V> {
    if has_keyed::<T>(s, k) {
        s.remove(choose|j: int| keyed_at::<T>(s, j, k))
    } else {
        s
    }
}

fn find_keyed<T: KeyedRecord>(list: &Vec<T>, key: &String) -> (r: Option<usize>)
    requires
        unique_keyed::<T>(records_view(list@)),
    ensures
        match r {
            Some(j) => keyed_at::<T>(records_view(list@), j as int, key@) && j == (choose|k: int|
                keyed_at::<T>(records_view(list@), k, key@)),
            None => !has_keyed::<T>(records_view(list@), key@),
        },
{
    let ghost s = records_view(list@);
    let mut i: usize = 0;
    while i < list.len()
        invariant
            s == records_view(list@),
            unique_keyed::<T>(s),
            i <= s.len(),
            forall|k: int| 0 <= k < i ==> !keyed_at::<T>(s, k, key@),
        decreases s.len() - i,
    {
        assert(s[i as int] == list@[i as int]@);
        if *list[i].key() == *key {
            let ghost c = choose|k: int| keyed_at::<T>(s, k, key@);
            assert(keyed_at::<T>(s, i as int, key@));
            assert(T::key_of(s[c]) == T::key_of(s[i as int]));
            return Some(i);
        }
        i += 1;
    }
    None
}

fn put_record<T: KeyedRecord>(list: &mut Vec<T>, v: T)
    requires
        unique_keyed::<T>(records_view(old(list)@)),
    ensures
        unique_keyed::<T>(records_view(final(list)@)),
        records_view(final(list)@) == put_keyed::<T>(records_view(old(list)@), v@),
{
    let ghost s0 = records_view(list@);
    let ghost vv = v@;
    let key = v.key().clone();
    match find_keyed(list, &key) {
        Some(j) => {
            list.set(j, v);
            let ghost s1 = records_view(list@);
            assert(s1 =~= s0.update(j as int, vv));
            assert(unique_keyed::<T>(s1)) by {
                assert forall|a: int, b: int| 0 <= a < s1.len() && 0 <= b < s1.len() && T::key_of(#[trigger] s1[a]) == T::key_of(#[trigger] s1[b]) implies a == b by {
                    if a != j && b != j {
                        assert(s0[a] == s1[a] && s0[b] == s1[b]);
                    } else if a == j && b != j {
                        assert(s0[b] == s1[b]);
                        assert(keyed_at::<T>(s0, b, key@));
                        assert(T::key_of(s0[b]) == T::key_of(s0[j as int]));
                    } else if b == j && a != j {
                        assert(s0[a] == s1[a]);
                        assert(T::key_of(s0[a]) == T::key_of(s0[j as int]));
                    }
                }
            }
        },
        None => {
            list.push(v);
            let ghost s1 = records_view(list@);
            assert(s1 =~= s0.push(vv));
            assert(unique_keyed::<T>(s1)) by {
                assert forall|a: int, b: int| 0 <= a < s1.len() && 0 <= b < s1.len() && T::key_of(#[trigger] s1[a]) == T::key_of(#[trigger] s1[b]) implies a == b by {
                    let n = s0.len() as int;
                    if a < n && b < n {
                        assert(s0[a] == s1[a] && s0[b] == s1[b]);
                    } else if a < n {
                        assert(s0[a] == s1[a]);
                        assert(keyed_at::<T>(s0, a, key@));
                    } else if b < n {
                        assert(s0[b] == s1[b]);
                        assert(keyed_at::<T>(s0, b, key@));
                    }
                }
            }
        },
    }
}

fn drop_record<T: KeyedRecord>(list: &mut Vec<T>, key: &String)
    requires
        unique_keyed::<T>(records_view(old(list)@)),
    ensures
        unique_keyed::<T>(records_view(final(list)@)),
        records_view(final(list)@) == drop_keyed::<T>(records_view(old(list)@), key@),
{
    let ghost s0 = records_view(list@);
    match find_keyed(list, key) {
        Some(j) => {
            list.remove(j);
            let ghost s1 = records_view(list@);
            assert(s1 =~= s0.remove(j as int));
            assert(unique_keyed::<T>(s1)) by {
                assert forall|a: int, b: int| 0 <= a < s1.len() && 0 <= b < s1.len() && T::key_of(#[trigger] s1[a]) == T::key_of(#[trigger] s1[b]) implies a == b by {
                    let a0 = if a < j { a } else { a + 1 };
                    let b0 = if b < j { b } else { b + 1 };
                    assert(s0[a0] == s1[a] && s0[b0] == s1[b]);
                }
            }
        },
        None => {},
    }
}

fn get_record<T: KeyedRecord>(list: &Vec<T>, key: &String) -> (r: Option<T>)
    requires
        unique_keyed::<T>(records_view(list@)),
    ensures
        match r {
            Some(v) => has_keyed::<T>(records_view(list@), key@) && v@ == keyed::<T>(records_view(list@), key@),
            None => !has_keyed::<T>(records_view(list@), key@),
        },
{
    match find_keyed(list, key) {
        Some(j) => Some(list[j].copy_record()),
        None => None,
    }
}

/// The values stored under `key`, in order.
pub open spec fn values_under<V>(key: Seq<char>) -> spec_fn((Seq<char>, V)) -> Option<V> {
    |p: (Seq<char>, V)| if p.0 == key { Some(p.1) } else { None }
}

/// The pairs stored under keys other than `key`.
pub open spec fn not_under<V>(key: Seq<char>) -> spec_fn((Seq<char>, V)) -> Option<(Seq<char>, V)> {
    |p: (Seq<char>, V)| if p.0 != key { Some(p) } else { None }
}

/// Each value paired with `key`.
pub open spec fn under<V>(key: Seq<char>, vs: Seq<V>) -> Seq<(Seq<char>, V)> {
    vs.map_values(|v: V| (key, v))
}

fn values_for<T: Record>(list: &Vec<(String, T)>, key: &String) -> (r: Vec<T>)
    ensures
        records_view(r@) == pairs_view(list@).filter_map(values_under(key@)),
{
    let ghost s = pairs_view(list@);
    let ghost g = values_under::<T::V>(key@);
    let mut out: Vec<T> = Vec::new();
    let mut i: usize = 0;
    assert(s.take(0) =~= Seq::<(Seq<char>, T::V)>::empty());
    assert(records_view(out@) =~= Seq::<T::V>::empty());
    while i < list.len()
        invariant
            s == pairs_view(list@),
            g == values_under::<T::V>(key@),
            i <= s.len(),
            records_view(out@) == s.take(i as int).filter_map(g),
        decreases s.len() - i,
    {
        proof {
            s.lemma_filter_map_take_succ(g, i as int);
        }
        assert(s[i as int] == (list@[i as int].0@, list@[i as int].1@));
        if list[i].0 == *key {
            let ghost before = out@;
            out.push(list[i].1.copy_record());
            assert(records_view(out@) =~= records_view(before).push(list@[i as int].1@));
        }
        i += 1;
    }
    assert(s.take(s.len() as int) =~= s);
    out
}

fn drop_key<T: Record>(list: &mut Vec<(String, T)>, key: &String)
    ensures
        pairs_view(final(list)@) == pairs_view(old(list)@).filter_map(not_under(key@)),
{
    let ghost s = pairs_view(list@);
    let ghost g = not_under::<T::V>(key@);
    let mut out: Vec<(String, T)> = Vec::new();
    let mut i: usize = 0;
    assert(s.take(0) =~= Seq::<(Seq<char>, T::V)>::empty());
    assert(pairs_view(out@) =~= Seq::<(Seq<char>, T::V)>::empty());
    while i < list.len()
        invariant
            s == pairs_view(list@),
            g == not_under::<T::V>(key@),
            i <= s.len(),
            pairs_view(out@) == s.take(i as int).filter_map(g),
        decreases s.len() - i,
    {
        proof {
            s.lemma_filter_map_take_succ(g, i as int);
        }
        assert(s[i as int] == (list@[i as int].0@, list@[i as int].1@));
        if list[i].0 != *key {
            let ghost before = out@;
            out.push((list[i].0.clone(), list[i].1.copy_record()));
            assert(pairs_view(out@) =~= pairs_view(before).push(s[i as int]));
        }
        i += 1;
    }
    assert(s.take(s.len() as int) =~= s);
    *list = out;
}

fn append_under<T: Record>(list: &mut Vec<(String, T)>, key: &String, items: &[T])
    ensures
        pairs_view(final(list)@) == pairs_view(old(list)@) + under(key@, records_view(items@)),
{
    let ghost s0 = pairs_view(list@);
    let ghost iv = records_view(items@);
    let mut i: usize = 0;
    assert(under(key@, iv.take(0)) =~= Seq::<(Seq<char>, T::V)>::empty());
    while i < items.len()
        invariant
            iv == records_view(items@),
            i <= iv.len(),
            pairs_view(list@) == s0 + under(key@, iv.take(i as int)),
        decreases iv.len() - i,
    {
        let ghost before = pairs_view(list@);
        list.push((key.clone(), items[i].copy_record()));
        assert(iv[i as int] == items@[i as int]@);
        assert(pairs_view(list@) =~= before.push((key@, iv[i as int])));
        assert(under(key@, iv.take(i + 1)) =~= under(key@, iv.take(i as int)).push((key@, iv[i as int])));
        i += 1;
    }
    assert(iv.take(iv.len() as int) =~= iv);
}

/// Everything the in-memory store holds.
pub struct StoreModel {
    /// Sessions, one per client id.
    pub sessions: Seq<SessionRecord>,
    /// Subscriptions, under the client id of the session saved with them.
    pub subscriptions: Seq<(Seq<char>, SubscriptionRecord)>,
    /// Outgoing messages, under the client id of their session.
    pub inflight: Seq<(Seq<char>, InflightRecord)>,
    /// Incoming QoS 2 messages, under the client id of their session.
    pub inbound: Seq<(Seq<char>, InboundRecord)>,
    /// Retained messages, one per topic.
    pub retained: Seq<RetainedRecord>,
}

/// In-memory store of sessions and retained messages.
#[derive(Debug)]
pub struct InMemoryStorage {
    sessions: Vec<PersistedSession>,
    subscriptions: Vec<(String, PersistedSubscription)>,
    inflight: Vec<(String, PersistedInflightMessage)>,
    inbound_qos2: Vec<(String, PersistedInboundQos2Message)>,
    retained: Vec<PersistedRetainedMessage>,
}

impl View for InMemoryStorage {
    type V = StoreModel;

    closed spec fn view(&self) -> StoreModel {
        StoreModel {
            sessions: records_view(self.sessions@),
            subscriptions: pairs_view(self.subscriptions@),
            inflight: pairs_view(self.inflight@),
            inbound: pairs_view(self.inbound_qos2@),
            retained: records_view(self.retained@),
        }
    }
}

/// A session is stored under its client id; a retained message under its
/// topic.
pub open spec fn store_wf(m: StoreModel) -> bool {
    unique_keyed::<PersistedSession>(m.sessions) && unique_keyed::<PersistedRetainedMessage>(
        m.retained,
    )
}

/// The sessions whose last update is not older than `older_than`.
pub open spec fn still_fresh(older_than: i64) -> spec_fn(SessionRecord) -> Option<SessionRecord> {
    |s: SessionRecord| if s.updated_at < older_than { None } else { Some(s) }
}

/// The client ids of the sessions older than `older_than`.
pub open spec fn expired_ids(older_than: i64) -> spec_fn(SessionRecord) -> Option<Seq<char>> {
    |s: SessionRecord| if s.updated_at < older_than { Some(s.client_id) } else { None }
}

/// The pairs whose key is not in `ids`.
pub open spec fn not_in<V>(ids: Seq<Seq<char>>) -> spec_fn((Seq<char>, V)) -> Option<(Seq<char>, V)> {
    |p: (Seq<char>, V)| if ids.contains(p.0) { None } else { Some(p) }
}

impl Default for InMemoryStorage {
    fn default() -> (r: Self)
        ensures
            r.wf(),
            r@.sessions.len() == 0,
            r@.subscriptions.len() == 0,
            r@.inflight.len() == 0,
            r@.inbound.len() == 0,
            r@.retained.len() == 0,
    {
        InMemoryStorage::new()
    }
}

impl InMemoryStorage {
    pub open spec fn wf(&self) -> bool {
        store_wf(self@)
    }

    /// An empty store.
    pub fn new() -> (r: InMemoryStorage)
        ensures
            r.wf(),
            r@.sessions.len() == 0,
            r@.subscriptions.len() == 0,
            r@.inflight.len() == 0,
            r@.inbound.len() == 0,
            r@.retained.len() == 0,
    {
        InMemoryStorage {
            sessions: Vec::new(),
            subscriptions: Vec::new(),
            inflight: Vec::new(),
            inbound_qos2: Vec::new(),
            retained: Vec::new(),
        }
    }

    /// Saves a session with its subscriptions, outgoing and incoming messages,
    /// replacing what was saved for its client id.
    pub fn save_session(
        &mut self,
        session: &PersistedSession,
        subscriptions: &[PersistedSubscription],
        inflight: &[PersistedInflightMessage],
        inbound_qos2: &[PersistedInboundQos2Message],
    ) -> (r: Result<(), StorageError>)
        requires
            old(self).wf(),
        ensures
            final(self).wf(),
            r is Ok,
            ({
                let c = session@.client_id;
                let o = old(self)@;
                final(self)@ == StoreModel {
                    sessions: put_keyed::<PersistedSession>(o.sessions, session@),
                    subscriptions: o.subscriptions.filter_map(not_under(c)) + under(c, records_view(subscriptions@)),
                    inflight: o.inflight.filter_map(not_under(c)) + under(c, records_view(inflight@)),
                    inbound: o.inbound.filter_map(not_under(c)) + under(c, records_view(inbound_qos2@)),
                    retained: o.retained,
                }
            }),
    {
        let client_id = &session.client_id;
        put_record(&mut self.sessions, session.duplicate());
        drop_key(&mut self.subscriptions, client_id);
        append_under(&mut self.subscriptions, client_id, subscriptions);
        drop_key(&mut self.inflight, client_id);
        append_under(&mut self.inflight, client_id, inflight);
        drop_key(&mut self.inbound_qos2, client_id);
        append_under(&mut self.inbound_qos2, client_id, inbound_qos2);
        Ok(())
    }

    /// The session saved for a client id.
    pub fn load_session(&self, client_id: &str) -> (r: Result<Option<PersistedSession>, StorageError>)
        requires
            self.wf(),
        ensures
            match r {
                Ok(Some(s)) => has_keyed::<PersistedSession>(self@.sessions, client_id@) && s@ == keyed::<
                    PersistedSession,
                >(self@.sessions, client_id@),
                Ok(None) => !has_keyed::<PersistedSession>(self@.sessions, client_id@),
                Err(_) => false,
            },
    {
        Ok(get_record(&self.sessions, &client_id.to_owned()))
    }

    /// The subscriptions saved for a client id, in saved order.
    pub fn load_subscriptions(&self, client_id: &str) -> (r: Result<Vec<PersistedSubscription>, StorageError>)
        ensures
            r matches Ok(v) && records_view(v@) == self@.subscriptions.filter_map(values_under(client_id@)),
    {
        Ok(values_for(&self.subscriptions, &client_id.to_owned()))
    }

    /// The outgoing messages saved for a client id, in saved order.
    pub fn load_inflight_messages(&self, client_id: &str) -> (r: Result<Vec<PersistedInflightMessage>, StorageError>)
        ensures
            r matches Ok(v) && records_view(v@) == self@.inflight.filter_map(values_under(client_id@)),
    {
        Ok(values_for(&self.inflight, &client_id.to_owned()))
    }

    /// The incoming QoS 2 messages saved for a client id, in saved order.
    pub fn load_inbound_qos2_messages(&self, client_id: &str) -> (r: Result<Vec<PersistedInboundQos2Message>, StorageError>)
        ensures
            r matches Ok(v) && records_view(v@) == self@.inbound.filter_map(values_under(client_id@)),
    {
        Ok(values_for(&self.inbound_qos2, &client_id.to_owned()))
    }

    /// Deletes what was saved for a client id.
    pub fn delete_session(&mut self, client_id: &str) -> (r: Result<(), StorageError>)
        requires
            old(self).wf(),
        ensures
            final(self).wf(),
            r is Ok,
            ({
                let c = client_id@;
                let o = old(self)@;
                final(self)@ == StoreModel {
                    sessions: drop_keyed::<PersistedSession>(o.sessions, c),
                    subscriptions: o.subscriptions.filter_map(not_under(c)),
                    inflight: o.inflight.filter_map(not_under(c)),
                    inbound: o.inbound.filter_map(not_under(c)),
                    retained: o.retained,
                }
            }),
    {
        let key = client_id.to_owned();
        drop_record(&mut self.sessions, &key);
        drop_key(&mut self.subscriptions, &key);
        drop_key(&mut self.inflight, &key);
        drop_key(&mut self.inbound_qos2, &key);
        Ok(())
    }

    /// Whether a session is saved for a client id.
    pub fn session_exists(&self, client_id: &str) -> (r: Result<bool, StorageError>)
        requires
            self.wf(),
        ensures
            r == Ok::<bool, StorageError>(has_keyed::<PersistedSession>(self@.sessions, client_id@)),
    {
        Ok(find_keyed(&self.sessions, &client_id.to_owned()).is_some())
    }

    /// Saves the retained message of its topic, replacing the previous one.
    pub fn save_retained_message(&mut self, msg: &PersistedRetainedMessage) -> (r: Result<(), StorageError>)
        requires
            old(self).wf(),
        ensures
            final(self).wf(),
            r is Ok,
            final(self)@ == (StoreModel {
                retained: put_keyed::<PersistedRetainedMessage>(old(self)@.retained, msg@),
                ..old(self)@
            }),
    {
        put_record(&mut self.retained, msg.duplicate());
        Ok(())
    }

    /// The retained message of a topic.
    pub fn load_retained_message(&self, topic: &str) -> (r: Result<Option<PersistedRetainedMessage>, StorageError>)
        requires
            self.wf(),
        ensures
            match r {
                Ok(Some(m)) => has_keyed::<PersistedRetainedMessage>(self@.retained, topic@) && m@
                    == keyed::<PersistedRetainedMessage>(self@.retained, topic@),
                Ok(None) => !has_keyed::<PersistedRetainedMessage>(self@.retained, topic@),
                Err(_) => false,
            },
    {
        Ok(get_record(&self.retained, &topic.to_owned()))
    }

    /// All retained messages.
    pub fn load_all_retained_messages(&self) -> (r: Result<Vec<PersistedRetainedMessage>, StorageError>)
        ensures
            r matches Ok(v) && records_view(v@) == self@.retained,
    {
        let mut out: Vec<PersistedRetainedMessage> = Vec::new();
        let mut i: usize = 0;
        while i < self.retained.len()
            invariant
                i <= self@.retained.len(),
                records_view(out@) == self@.retained.take(i as int),
            decreases self@.retained.len() - i,
        {
            let ghost before = out@;
            out.push(self.retained[i].duplicate());
            assert(self@.retained[i as int] == self.retained@[i as int]@);
            assert(records_view(out@) =~= records_view(before).push(self@.retained[i as int]));
            assert(self@.retained.take(i + 1) =~= self@.retained.take(i as int).push(self@.retained[i as int]));
            i += 1;
        }
        assert(self@.retained.take(self@.retained.len() as int) =~= self@.retained);
        Ok(out)
    }

    /// Deletes the retained message of a topic.
    pub fn delete_retained_message(&mut self, topic: &str) -> (r: Result<(), StorageError>)
        requires
            old(self).wf(),
        ensures
            final(self).wf(),
            r is Ok,
            final(self)@ == (StoreModel {
                retained: drop_keyed::<PersistedRetainedMessage>(old(self)@.retained, topic@),
                ..old(self)@
            }),
    {
        drop_record(&mut self.retained, &topic.to_owned());
        Ok(())
    }

    /// How many retained messages are stored.
    pub fn count_retained_messages(&self) -> (r: Result<usize, StorageError>)
        ensures
            r matches Ok(n) && n == self@.retained.len(),
    {
        Ok(self.retained.len())
    }
}


pub open spec fn strings_view(v: Seq<String>) -> Seq<Seq<char>> {
    v.map_values(|x: String| x@)
}

fn contains_string(ids: &Vec<String>, key: &String) -> (r: bool)
    ensures
        r == strings_view(ids@).contains(key@),
{
    let mut i: usize = 0;
    while i < ids.len()
        invariant
            i <= ids@.len(),
            forall|k: int| 0 <= k < i ==> strings_view(ids@)[k] != key@,
        decreases ids@.len() - i,
    {
        if ids[i] == *key {
            assert(strings_view(ids@)[i as int] == key@);
            return true;
        }
        i += 1;
    }
    false
}

fn drop_keys<T: Record>(list: &mut Vec<(String, T)>, ids: &Vec<String>)
    ensures
        pairs_view(final(list)@) == pairs_view(old(list)@).filter_map(not_in(strings_view(ids@))),
{
    let ghost s = pairs_view(list@);
    let ghost g = not_in::<T::V>(strings_view(ids@));
    let mut out: Vec<(String, T)> = Vec::new();
    let mut i: usize = 0;
    assert(s.take(0) =~= Seq::<(Seq<char>, T::V)>::empty());
    assert(pairs_view(out@) =~= Seq::<(Seq<char>, T::V)>::empty());
    while i < list.len()
        invariant
            s == pairs_view(list@),
            g == not_in::<T::V>(strings_view(ids@)),
            i <= s.len(),
            pairs_view(out@) == s.take(i as int).filter_map(g),
        decreases s.len() - i,
    {
        proof {
            s.lemma_filter_map_take_succ(g, i as int);
        }
        assert(s[i as int] == (list@[i as int].0@, list@[i as int].1@));
        if !contains_string(ids, &list[i].0) {
            let ghost before = out@;
            out.push((list[i].0.clone(), list[i].1.copy_record()));
            assert(pairs_view(out@) =~= pairs_view(before).push(s[i as int]));
        }
        i += 1;
    }
    assert(s.take(s.len() as int) =~= s);
    *list = out;
}

impl InMemoryStorage {
    /// Deletes the sessions last updated before `older_than`, with what was
    /// saved along with them; returns how many sessions were deleted.
    pub fn delete_expired_sessions(&mut self, older_than: i64) -> (r: Result<usize, StorageError>)
        requires
            old(self).wf(),
        ensures
            final(self).wf(),
            ({
                let o = old(self)@;
                let ids = o.sessions.filter_map(expired_ids(older_than));
                &&& r matches Ok(n) && n == ids.len()
                &&& final(self)@ == StoreModel {
                    sessions: o.sessions.filter_map(still_fresh(older_than)),
                    subscriptions: o.subscriptions.filter_map(not_in(ids)),
                    inflight: o.inflight.filter_map(not_in(ids)),
                    inbound: o.inbound.filter_map(not_in(ids)),
                    retained: o.retained,
                }
            }),
    {
        let ghost s = self@.sessions;
        let ghost gf = still_fresh(older_than);
        let ghost ge = expired_ids(older_than);
        let mut kept: Vec<PersistedSession> = Vec::new();
        let mut expired: Vec<String> = Vec::new();
        let ghost mut idx: Seq<int> = Seq::empty();
        let mut i: usize = 0;
        assert(s.take(0) =~= Seq::<SessionRecord>::empty());
        assert(records_view(kept@) =~= Seq::<SessionRecord>::empty());
        assert(strings_view(expired@) =~= Seq::<Seq<char>>::empty());
        while i < self.sessions.len()
            invariant
                s == self@.sessions,
                unique_keyed::<PersistedSession>(s),
                gf == still_fresh(older_than),
                ge == expired_ids(older_than),
                i <= s.len(),
                records_view(kept@) == s.take(i as int).filter_map(gf),
                strings_view(expired@) == s.take(i as int).filter_map(ge),
                expired@.len() <= i,
                idx.len() == kept@.len(),
                forall|k: int| 0 <= k < idx.len() ==> 0 <= #[trigger] idx[k] < i && s[idx[k]] == records_view(kept@)[k],
                forall|k1: int, k2: int| 0 <= k1 < k2 < idx.len() ==> #[trigger] idx[k1] < #[trigger] idx[k2],
            decreases s.len() - i,
        {
            proof {
                s.lemma_filter_map_take_succ(gf, i as int);
                s.lemma_filter_map_take_succ(ge, i as int);
            }
            let session = &self.sessions[i];
            assert(s[i as int] == session@);
            if session.updated_at < older_than {
                let ghost before = expired@;
                expired.push(session.client_id.clone());
                assert(strings_view(expired@) =~= strings_view(before).push(session@.client_id));
            } else {
                let ghost before = kept@;
                kept.push(session.duplicate());
                proof {
                    idx = idx.push(i as int);
                }
                assert(records_view(kept@) =~= records_view(before).push(session@));
            }
            i += 1;
        }
        assert(s.take(s.len() as int) =~= s);
        let ghost kv = records_view(kept@);
        assert(unique_keyed::<PersistedSession>(kv)) by {
            assert forall|a: int, b: int| 0 <= a < kv.len() && 0 <= b < kv.len() && PersistedSession::key_of(#[trigger] kv[a]) == PersistedSession::key_of(#[trigger] kv[b]) implies a == b by {
                assert(s[idx[a]] == kv[a] && s[idx[b]] == kv[b]);
                if a < b {
                    assert(idx[a] < idx[b]);
                } else if b < a {
                    assert(idx[b] < idx[a]);
                }
            }
        }
        let count = expired.len();
        self.sessions = kept;
        drop_keys(&mut self.subscriptions, &expired);
        drop_keys(&mut self.inflight, &expired);
        drop_keys(&mut self.inbound_qos2, &expired);
        Ok(count)
    }
}

// ---------------------------------------------------------------------------
// Laws
// ---------------------------------------------------------------------------

/// `filter_map` of a concatenation is the concatenation of the `filter_map`s.
pub proof fn lemma_filter_map_concat<A, B>(a: Seq<A>, b: Seq<A>, f: spec_fn(A) -> Option<B>)
    ensures
        (a + b).filter_map(f) == a.filter_map(f) + b.filter_map(f),
    decreases b.len(),
{
    if b.len() == 0 {
        assert(a + b =~= a);
        assert(a.filter_map(f) + b.filter_map(f) =~= a.filter_map(f));
    } else {
        lemma_filter_map_concat(a, b.drop_last(), f);
        assert((a + b).drop_last() =~= a + b.drop_last());
        assert((a + b).last() == b.last());
        match f(b.last()) {
            Some(x) => {
                assert(a.filter_map(f) + b.filter_map(f) =~= a.filter_map(f) + b.drop_last().filter_map(f) + seq![x]);
            },
            None => {},
        }
    }
}

proof fn lemma_values_under_own<V>(c: Seq<char>, vs: Seq<V>)
    ensures
        under(c, vs).filter_map(values_under(c)) == vs,
    decreases vs.len(),
{
    if vs.len() > 0 {
        lemma_values_under_own(c, vs.drop_last());
        assert(under(c, vs).drop_last() =~= under(c, vs.drop_last()));
    } else {
        assert(under(c, vs) =~= Seq::<(Seq<char>, V)>::empty());
    }
}

/// Replacing what is stored under `c` by `vs` makes `vs` what loading `c`
/// gives back.
proof fn lemma_replace_under<V>(o: Seq<(Seq<char>, V)>, c: Seq<char>, vs: Seq<V>)
    ensures
        (o.filter_map(not_under(c)) + under(c, vs)).filter_map(values_under(c)) == vs,
{
    lemma_filter_map_concat(o.filter_map(not_under(c)), under(c, vs), values_under(c));
    lemma_none_under(o, c);
    lemma_values_under_own(c, vs);
    assert(o.filter_map(not_under(c)).filter_map(values_under(c)) =~= Seq::<V>::empty());
}

proof fn lemma_none_under<V>(s: Seq<(Seq<char>, V)>, c: Seq<char>)
    ensures
        s.filter_map(not_under(c)).filter_map(values_under(c)).len() == 0,
{
    let t = s.filter_map(not_under(c));
    let u = t.filter_map(values_under(c));
    if u.len() > 0 {
        assert(u.contains(u[0]));
        crate::router::lemma_filter_map_contains_iff(t, values_under(c), u[0]);
        let j = choose|j: int| 0 <= j < t.len() && values_under(c)(t[j]) == Some(u[0]);
        assert(t.contains(t[j]));
        crate::router::lemma_filter_map_contains_iff(s, not_under(c), t[j]);
    }
}

/// What saving a session stores is what loading it gives back: the session
/// itself, and its subscriptions, outgoing messages and incoming QoS 2
/// messages, each in the saved order.
pub proof fn lemma_save_then_load(
    o: StoreModel,
    s: SessionRecord,
    subs: Seq<SubscriptionRecord>,
    infl: Seq<InflightRecord>,
    inb: Seq<InboundRecord>,
)
    requires
        store_wf(o),
    ensures
        ({
            let c = s.client_id;
            let sessions = put_keyed::<PersistedSession>(o.sessions, s);
            let subscriptions = o.subscriptions.filter_map(not_under(c)) + under(c, subs);
            &&& has_keyed::<PersistedSession>(sessions, c)
            &&& keyed::<PersistedSession>(sessions, c) == s
            &&& subscriptions.filter_map(values_under(c)) == subs
            &&& (o.inflight.filter_map(not_under(c)) + under(c, infl)).filter_map(values_under(c)) == infl
            &&& (o.inbound.filter_map(not_under(c)) + under(c, inb)).filter_map(values_under(c)) == inb
        }),
{
    lemma_replace_under(o.inflight, s.client_id, infl);
    lemma_replace_under(o.inbound, s.client_id, inb);
    let c = s.client_id;
    let sessions = put_keyed::<PersistedSession>(o.sessions, s);
    if has_keyed::<PersistedSession>(o.sessions, c) {
        let j = choose|j: int| keyed_at::<PersistedSession>(o.sessions, j, c);
        assert(keyed_at::<PersistedSession>(sessions, j, c));
        let k = choose|k: int| keyed_at::<PersistedSession>(sessions, k, c);
        if k != j {
            assert(sessions[k] == o.sessions[k]);
            assert(PersistedSession::key_of(o.sessions[k]) == PersistedSession::key_of(o.sessions[j]));
        }
    } else {
        let j = o.sessions.len() as int;
        assert(keyed_at::<PersistedSession>(sessions, j, c));
        let k = choose|k: int| keyed_at::<PersistedSession>(sessions, k, c);
        if k != j {
            assert(sessions[k] == o.sessions[k]);
            assert(keyed_at::<PersistedSession>(o.sessions, k, c));
        }
    }
    lemma_filter_map_concat(o.subscriptions.filter_map(not_under(c)), under(c, subs), values_under(c));
    lemma_none_under(o.subscriptions, c);
    lemma_values_under_own(c, subs);
    assert(o.subscriptions.filter_map(not_under(c)).filter_map(values_under(c)) =~= Seq::<SubscriptionRecord>::empty());
}

/// Deleting a session leaves nothing saved for its client id.
pub proof fn lemma_delete_cascades(o: StoreModel, c: Seq<char>)
    requires
        store_wf(o),
    ensures
        !has_keyed::<PersistedSession>(drop_keyed::<PersistedSession>(o.sessions, c), c),
        o.subscriptions.filter_map(not_under(c)).filter_map(values_under(c)).len() == 0,
        o.inflight.filter_map(not_under(c)).filter_map(values_under(c)).len() == 0,
        o.inbound.filter_map(not_under(c)).filter_map(values_under(c)).len() == 0,
{
    lemma_none_under(o.subscriptions, c);
    lemma_none_under(o.inflight, c);
    lemma_none_under(o.inbound, c);
    let s = o.sessions;
    if has_keyed::<PersistedSession>(s, c) {
        let j = choose|j: int| keyed_at::<PersistedSession>(s, j, c);
        let t = s.remove(j);
        if has_keyed::<PersistedSession>(t, c) {
            let k = choose|k: int| keyed_at::<PersistedSession>(t, k, c);
            let k0 = if k < j { k } else { k + 1 };
            assert(t[k] == s[k0]);
            assert(PersistedSession::key_of(s[k0]) == PersistedSession::key_of(s[j]));
        }
    }
}

/// A saved retained message is what loading its topic gives back.
pub proof fn lemma_retained_save_then_load(o: Seq<RetainedRecord>, m: RetainedRecord)
    requires
        unique_keyed::<PersistedRetainedMessage>(o),
    ensures
        has_keyed::<PersistedRetainedMessage>(put_keyed::<PersistedRetainedMessage>(o, m), m.topic),
        keyed::<PersistedRetainedMessage>(put_keyed::<PersistedRetainedMessage>(o, m), m.topic) == m,
        !has_keyed::<PersistedRetainedMessage>(drop_keyed::<PersistedRetainedMessage>(o, m.topic), m.topic),
{
    let c = m.topic;
    let n = put_keyed::<PersistedRetainedMessage>(o, m);
    if has_keyed::<PersistedRetainedMessage>(o, c) {
        let j = choose|j: int| keyed_at::<PersistedRetainedMessage>(o, j, c);
        assert(keyed_at::<PersistedRetainedMessage>(n, j, c));
        let k = choose|k: int| keyed_at::<PersistedRetainedMessage>(n, k, c);
        if k != j {
            assert(n[k] == o[k]);
            assert(PersistedRetainedMessage::key_of(o[k]) == PersistedRetainedMessage::key_of(o[j]));
        }
        let t = o.remove(j);
        if has_keyed::<PersistedRetainedMessage>(t, c) {
            let k2 = choose|k: int| keyed_at::<PersistedRetainedMessage>(t, k, c);
            let k0 = if k2 < j { k2 } else { k2 + 1 };
            assert(t[k2] == o[k0]);
            assert(PersistedRetainedMessage::key_of(o[k0]) == PersistedRetainedMessage::key_of(o[j]));
        }
    } else {
        let j = o.len() as int;
        assert(keyed_at::<PersistedRetainedMessage>(n, j, c));
        let k = choose|k: int| keyed_at::<PersistedRetainedMessage>(n, k, c);
        if k != j {
            assert(n[k] == o[k]);
            assert(keyed_at::<PersistedRetainedMessage>(o, k, c));
        }
    }
}
} // verus!
