//! The subscription table of the broker: which session subscribed to which
//! topic filter at which QoS, what a published message is delivered to, and
//! what becomes of retained messages.

use crate::buf::{bytes_clone, bytes_len, bytes_view};
use crate::protocol::packet::{qos_min, qos_num, PublishModel, PublishPacket, QoS};
use crate::protocol::v3::subscribe_return_codes::FAILURE;
use crate::storage::types::{
    qos_from_stored, stored_from_qos, PersistedRetainedMessage, RetainedRecord, StorageError,
    StoredQoS,
};
use crate::storage::memory::{
    drop_keyed, has_keyed, keyed, keyed_at, put_keyed, unique_keyed, KeyedRecord,
};
use crate::text::{chars_equal, chars_of, contains_char};
use crate::topic::{
    chars_view, is_single, levels, match_parts, split_levels, topic_matches_spec,
    valid_filter_level, valid_topic_filter, valid_topic_name,
};
use bytes::Bytes;
use vstd::prelude::*;

verus! {

/// One subscription: a session's interest in a topic filter at a QoS.
pub struct Subscription {
    pub filter: String,
    pub session_id: String,
    pub qos: QoS,
}

/// Abstract subscription: filter, session id, QoS.
pub type SubEntry = (Seq<char>, Seq<char>, QoS);

impl View for Subscription {
    type V = SubEntry;

    open spec fn view(&self) -> SubEntry {
        (self.filter@, self.session_id@, self.qos)
    }
}

/// The subscription table and the limit on retained messages.
pub struct Router {
    subscriptions: Vec<Subscription>,
    retained_message_limit: usize,
}

pub open spec fn entries_view(v: Seq<Subscription>) -> Seq<SubEntry> {
    v.map_values(|s: Subscription| s@)
}

impl View for Router {
    type V = Seq<SubEntry>;

    closed spec fn view(&self) -> Seq<SubEntry> {
        entries_view(self.subscriptions@)
    }
}

/// Entry `j` of `e` is the subscription of session `s` to filter `f`.
pub open spec fn has_key(e: Seq<SubEntry>, j: int, f: Seq<char>, s: Seq<char>) -> bool {
    0 <= j < e.len() && e[j].0 == f && e[j].1 == s
}

/// Every subscription's filter is a valid topic filter.
pub open spec fn valid_filters(e: Seq<SubEntry>) -> bool {
    forall|i: int| 0 <= i < e.len() ==> valid_topic_filter(#[trigger] e[i].0)
}

/// No session is subscribed twice to the same filter.
pub open spec fn unique_keys(e: Seq<SubEntry>) -> bool {
    forall|i: int, j: int|
        #![trigger e[i], e[j]]
        0 <= i < e.len() && 0 <= j < e.len() && e[i].0 == e[j].0 && e[i].1 == e[j].1 ==> i == j
}

/// The table after session `s` subscribes to `f` at `q`: an existing
/// subscription of `s` to `f` takes the new QoS in place, else a new one is
/// added at the end.
pub open spec fn upsert(e: Seq<SubEntry>, f: Seq<char>, s: Seq<char>, q: QoS) -> Seq<SubEntry> {
    if exists|j: int| has_key(e, j, f, s) {
        e.update(choose|j: int| has_key(e, j, f, s), (f, s, q))
    } else {
        e.push((f, s, q))
    }
}

/// The table after session `s` unsubscribes from `f`.
pub open spec fn remove_key(e: Seq<SubEntry>, f: Seq<char>, s: Seq<char>) -> Seq<SubEntry> {
    if exists|j: int| has_key(e, j, f, s) {
        e.remove(choose|j: int| has_key(e, j, f, s))
    } else {
        e
    }
}

/// The table after session `s` unsubscribes from each of `filters` in turn.
pub open spec fn remove_keys(e: Seq<SubEntry>, filters: Seq<Seq<char>>, s: Seq<char>) -> Seq<
    SubEntry,
>
    decreases filters.len(),
{
    if filters.len() == 0 {
        e
    } else {
        remove_key(remove_keys(e, filters.drop_last(), s), filters.last(), s)
    }
}

/// Keeps the subscriptions of sessions other than `s`.
pub open spec fn other_sessions(s: Seq<char>) -> spec_fn(SubEntry) -> Option<SubEntry> {
    |x: SubEntry| if x.1 != s { Some(x) } else { None }
}

/// The filters and QoS levels that session `s` subscribed to.
pub open spec fn session_filters(s: Seq<char>) -> spec_fn(SubEntry) -> Option<(Seq<char>, QoS)> {
    |x: SubEntry| if x.1 == s { Some((x.0, x.2)) } else { None }
}

/// The copy of a retained message sent to a new subscription at QoS `q`.
pub open spec fn retained_copy(r: RetainedRecord, q: QoS) -> PublishModel {
    PublishModel {
        topic: r.topic,
        packet_id: None,
        payload: r.payload,
        qos: qos_min(qos_from_stored(r.qos), q),
        retain: true,
        dup: false,
    }
}

/// The retained messages whose topics match filter `f`, as sent to a
/// subscription at QoS `q`, in stored order.
pub open spec fn retained_for(f: Seq<char>, q: QoS, retained: Seq<RetainedRecord>) -> Seq<
    PublishModel,
> {
    retained.filter_map(
        |r: RetainedRecord|
            if topic_matches_spec(r.topic, f) {
                Some(retained_copy(r, q))
            } else {
                None
            },
    )
}

/// What subscribing gives: the new table, one return code per requested
/// filter (the granted QoS, or FAILURE for an invalid filter), and the
/// retained messages to send.
pub struct SubscribeOutcome {
    pub entries: Seq<SubEntry>,
    pub codes: Seq<u8>,
    pub retained: Seq<PublishModel>,
}

/// Subscribing session `s` to `filters` in turn, with `retained` the stored
/// retained messages.
pub open spec fn subscribe_spec(
    e: Seq<SubEntry>,
    s: Seq<char>,
    filters: Seq<(Seq<char>, QoS)>,
    retained: Seq<RetainedRecord>,
) -> SubscribeOutcome
    decreases filters.len(),
{
    if filters.len() == 0 {
        SubscribeOutcome { entries: e, codes: Seq::empty(), retained: Seq::empty() }
    } else {
        let m = subscribe_spec(e, s, filters.drop_last(), retained);
        let (f, q) = filters.last();
        if !valid_topic_filter(f) {
            SubscribeOutcome { entries: m.entries, codes: m.codes.push(FAILURE), retained: m.retained }
        } else {
            SubscribeOutcome {
                entries: upsert(m.entries, f, s, q),
                codes: m.codes.push(qos_num(q)),
                retained: m.retained + retained_for(f, q, retained),
            }
        }
    }
}

/// What becomes of the retained message of a published topic.
pub enum RetainedUpdate {
    /// The message does not ask to be retained.
    Unchanged,
    /// An empty retained message clears the topic's retained message.
    Delete(String),
    /// The message becomes the topic's retained message.
    Store(PersistedRetainedMessage),
    /// The topic has none yet and the store is full: the message is not kept.
    LimitReached,
}

/// Abstract value of a retained-message update.
pub enum RetainedUpdateModel {
    Unchanged,
    Delete(Seq<char>),
    Store(RetainedRecord),
    LimitReached,
}

impl View for RetainedUpdate {
    type V = RetainedUpdateModel;

    open spec fn view(&self) -> RetainedUpdateModel {
        match self {
            RetainedUpdate::Unchanged => RetainedUpdateModel::Unchanged,
            RetainedUpdate::Delete(t) => RetainedUpdateModel::Delete(t@),
            RetainedUpdate::Store(m) => RetainedUpdateModel::Store(m@),
            RetainedUpdate::LimitReached => RetainedUpdateModel::LimitReached,
        }
    }
}

/// A message to hand to one session.
pub struct Delivery {
    pub session_id: String,
    pub packet: PublishPacket,
}

impl View for Delivery {
    type V = (Seq<char>, PublishModel);

    open spec fn view(&self) -> (Seq<char>, PublishModel) {
        (self.session_id@, self.packet@)
    }
}

pub open spec fn deliveries_view(v: Seq<Delivery>) -> Seq<(Seq<char>, PublishModel)> {
    v.map_values(|d: Delivery| d@)
}

/// What routing a published message gives.
pub struct RouteOutcome {
    pub retained: RetainedUpdate,
    pub deliveries: Vec<Delivery>,
}

/// The copy of a published message forwarded to a subscription at QoS `q`:
/// the lower of the two QoS levels, no packet id, not retained, not a
/// duplicate.
pub open spec fn forwarded(p: PublishModel, q: QoS) -> PublishModel {
    PublishModel {
        topic: p.topic,
        packet_id: None,
        payload: p.payload,
        qos: qos_min(p.qos, q),
        retain: false,
        dup: false,
    }
}

/// One delivery per subscription whose filter matches the topic, in table
/// order.
pub open spec fn deliveries_for(p: PublishModel) -> spec_fn(SubEntry) -> Option<
    (Seq<char>, PublishModel),
> {
    |x: SubEntry|
        if topic_matches_spec(p.topic, x.0) {
            Some((x.1, forwarded(p, x.2)))
        } else {
            None
        }
}

/// The retained-message update for a published message: none unless it asks
/// to be retained; an empty one clears the topic; otherwise it is stored,
/// unless the topic has no retained message yet (`existing` is `Ok(false)`)
/// and the store already holds `limit` messages (a failed count counts 0).
pub open spec fn retained_update_spec(
    p: PublishModel,
    existing: Result<bool, StorageError>,
    count: Result<usize, StorageError>,
    limit: usize,
    now: i64,
) -> RetainedUpdateModel {
    if !p.retain {
        RetainedUpdateModel::Unchanged
    } else if p.payload.len() == 0 {
        RetainedUpdateModel::Delete(p.topic)
    } else {
        let is_new = existing matches Ok(false);
        let n = match count {
            Ok(n) => n,
            Err(_) => 0,
        };
        if is_new && n >= limit {
            RetainedUpdateModel::LimitReached
        } else {
            RetainedUpdateModel::Store(
                RetainedRecord {
                    topic: p.topic,
                    payload: p.payload,
                    qos: stored_from_qos(p.qos),
                    updated_at: now,
                },
            )
        }
    }
}

pub open spec fn retained_records(v: Seq<PersistedRetainedMessage>) -> Seq<RetainedRecord> {
    v.map_values(|m: PersistedRetainedMessage| m@)
}

/// The retained messages a load from the store gave: none when it failed.
pub open spec fn loaded_retained(r: Result<Vec<PersistedRetainedMessage>, StorageError>) -> Seq<
    RetainedRecord,
> {
    match r {
        Ok(v) => retained_records(v@),
        Err(_) => Seq::empty(),
    }
}

pub open spec fn publish_models(v: Seq<PublishPacket>) -> Seq<PublishModel> {
    v.map_values(|p: PublishPacket| p@)
}

pub open spec fn filter_list_view(v: Seq<(String, QoS)>) -> Seq<(Seq<char>, QoS)> {
    v.map_values(|p: (String, QoS)| (p.0@, p.1))
}

pub open spec fn string_list_view(v: Seq<String>) -> Seq<Seq<char>> {
    v.map_values(|s: String| s@)
}

impl Router {
    /// Whether `topic` matches `filter`.
    pub fn topic_matches(topic: &str, filter: &str) -> (r: bool)
        ensures
            r == topic_matches_spec(topic@, filter@),
    {
        let t = chars_of(topic);
        let f = chars_of(filter);
        if chars_equal(t.as_slice(), f.as_slice()) {
            return true;
        }
        let topic_parts = split_levels(t.as_slice());
        let filter_parts = split_levels(f.as_slice());
        assert(chars_view(topic_parts@).skip(0) =~= chars_view(topic_parts@));
        assert(chars_view(filter_parts@).skip(0) =~= chars_view(filter_parts@));
        match_parts(&topic_parts, &filter_parts, 0, 0)
    }

    /// Whether `topic` may be published to.
    pub fn is_valid_topic_name(topic: &str) -> (r: bool)
        ensures
            r == valid_topic_name(topic@),
    {
        let t = chars_of(topic);
        t.len() > 0 && !contains_char(t.as_slice(), '\0')
    }

    /// Whether `filter` may be subscribed to.
    pub fn is_valid_topic_filter(filter: &str) -> (r: bool)
        ensures
            r == valid_topic_filter(filter@),
    {
        let f = chars_of(filter);
        if f.len() == 0 {
            return false;
        }
        if contains_char(f.as_slice(), '\0') {
            return false;
        }
        let levels_v = split_levels(f.as_slice());
        let ghost ls = levels(filter@);
        let n = levels_v.len();
        let mut i: usize = 0;
        while i < n
            invariant
                n == ls.len(),
                chars_view(levels_v@) == ls,
                f@ == filter@,
                ls == levels(filter@),
                i <= n,
                forall|j: int| 0 <= j < i ==> valid_filter_level(#[trigger] ls[j], j == n - 1),
            decreases n - i,
        {
            let level = levels_v[i].as_slice();
            assert(ls[i as int] == level@);
            if contains_char(level, '#') && (!is_single(level, '#') || i != n - 1) {
                assert(!valid_filter_level(ls[i as int], i == n - 1));
                return false;
            }
            if contains_char(level, '+') && !is_single(level, '+') {
                assert(!valid_filter_level(ls[i as int], i == n - 1));
                return false;
            }
            i += 1;
        }
        true
    }
}

impl Router {
    /// The table is well formed: no session is subscribed twice to one
    /// filter, and every filter is a valid one.
    pub closed spec fn wf(&self) -> bool {
        unique_keys(self@) && valid_filters(self@)
    }

    /// The limit on retained messages.
    pub closed spec fn limit(&self) -> usize {
        self.retained_message_limit
    }

    /// An empty table.
    pub fn new(retained_message_limit: usize) -> (r: Router)
        ensures
            r.wf(),
            r@ == Seq::<SubEntry>::empty(),
            r.limit() == retained_message_limit,
    {
        let r = Router { subscriptions: Vec::new(), retained_message_limit };
        assert(r@ =~= Seq::<SubEntry>::empty());
        r
    }

    fn find(&self, filter: &String, session_id: &String) -> (r: Option<usize>)
        requires
            self.wf(),
        ensures
            match r {
                Some(j) => has_key(self@, j as int, filter@, session_id@) && j == (choose|k: int|
                    has_key(self@, k, filter@, session_id@)),
                None => !exists|k: int| has_key(self@, k, filter@, session_id@),
            },
    {
        let mut i: usize = 0;
        while i < self.subscriptions.len()
            invariant
                self.wf(),
                i <= self.subscriptions@.len(),
                forall|k: int| 0 <= k < i ==> !has_key(self@, k, filter@, session_id@),
            decreases self.subscriptions@.len() - i,
        {
            let s = &self.subscriptions[i];
            assert(self@[i as int] == s@);
            if s.filter == *filter && s.session_id == *session_id {
                assert(has_key(self@, i as int, filter@, session_id@));
                let ghost c = choose|k: int| has_key(self@, k, filter@, session_id@);
                assert(has_key(self@, c, filter@, session_id@));
                assert(self@[c].0 == self@[i as int].0 && self@[c].1 == self@[i as int].1);
                return Some(i);
            }
            i += 1;
        }
        None
    }

    fn upsert_one(&mut self, filter: &String, session_id: &String, qos: QoS)
        requires
            old(self).wf(),
            valid_topic_filter(filter@),
        ensures
            final(self).wf(),
            final(self)@ == upsert(old(self)@, filter@, session_id@, qos),
            final(self).limit() == old(self).limit(),
    {
        let entry = Subscription { filter: filter.clone(), session_id: session_id.clone(), qos };
        match self.find(filter, session_id) {
            Some(j) => {
                let ghost e0 = self@;
                self.subscriptions.set(j, entry);
                assert(self@ =~= e0.update(j as int, (filter@, session_id@, qos)));
                assert(valid_filters(self@)) by {
                    assert forall|k: int| 0 <= k < self@.len() implies valid_topic_filter(#[trigger] self@[k].0) by {
                        if k != j {
                            assert(self@[k] == e0[k]);
                        }
                    }
                }
                assert(unique_keys(self@)) by {
                    assert forall|a: int, b: int|
                        0 <= a < self@.len() && 0 <= b < self@.len() && #[trigger] self@[a].0
                            == #[trigger] self@[b].0 && self@[a].1 == self@[b].1 implies a == b by {
                        if a != j && b != j {
                            assert(e0[a] == self@[a] && e0[b] == self@[b]);
                        } else if a == j && b != j {
                            assert(e0[b] == self@[b]);
                            assert(has_key(e0, b, filter@, session_id@));
                        } else if b == j && a != j {
                            assert(e0[a] == self@[a]);
                            assert(has_key(e0, a, filter@, session_id@));
                        }
                    }
                }
            },
            None => {
                let ghost e0 = self@;
                self.subscriptions.push(entry);
                assert(self@ =~= e0.push((filter@, session_id@, qos)));
                assert(valid_filters(self@)) by {
                    assert forall|k: int| 0 <= k < self@.len() implies valid_topic_filter(#[trigger] self@[k].0) by {
                        if k < e0.len() {
                            assert(self@[k] == e0[k]);
                        }
                    }
                }
                assert(unique_keys(self@)) by {
                    assert forall|a: int, b: int|
                        0 <= a < self@.len() && 0 <= b < self@.len() && #[trigger] self@[a].0
                            == #[trigger] self@[b].0 && self@[a].1 == self@[b].1 implies a == b by {
                        let n = e0.len() as int;
                        if a < n && b < n {
                            assert(e0[a] == self@[a] && e0[b] == self@[b]);
                        } else if a == n && b < n {
                            assert(e0[b] == self@[b]);
                            assert(has_key(e0, b, filter@, session_id@));
                        } else if b == n && a < n {
                            assert(e0[a] == self@[a]);
                            assert(has_key(e0, a, filter@, session_id@));
                        }
                    }
                }
            },
        }
    }

    fn remove_one(&mut self, filter: &String, session_id: &String)
        requires
            old(self).wf(),
        ensures
            final(self).wf(),
            final(self)@ == remove_key(old(self)@, filter@, session_id@),
            final(self).limit() == old(self).limit(),
    {
        match self.find(filter, session_id) {
            Some(j) => {
                let ghost e0 = self@;
                self.subscriptions.remove(j);
                assert(self@ =~= e0.remove(j as int));
                assert(valid_filters(self@)) by {
                    assert forall|k: int| 0 <= k < self@.len() implies valid_topic_filter(#[trigger] self@[k].0) by {
                        let k0 = if k < j { k } else { k + 1 };
                        assert(self@[k] == e0[k0]);
                    }
                }
                assert(unique_keys(self@)) by {
                    assert forall|a: int, b: int|
                        0 <= a < self@.len() && 0 <= b < self@.len() && #[trigger] self@[a].0
                            == #[trigger] self@[b].0 && self@[a].1 == self@[b].1 implies a == b by {
                        let a0 = if a < j { a } else { a + 1 };
                        let b0 = if b < j { b } else { b + 1 };
                        assert(e0[a0] == self@[a] && e0[b0] == self@[b]);
                    }
                }
            },
            None => {},
        }
    }
}


/// Appends to `out` the retained messages matching `filter`, as sent to a
/// subscription at `qos`.
fn push_retained_matches(
    filter: &String,
    qos: QoS,
    retained: &Vec<PersistedRetainedMessage>,
    out: &mut Vec<PublishPacket>,
)
    ensures
        publish_models(final(out)@) == publish_models(old(out)@) + retained_for(
            filter@,
            qos,
            retained_records(retained@),
        ),
{
    let ghost rr = retained_records(retained@);
    let ghost base = publish_models(out@);
    let ghost f = |r: RetainedRecord|
        if topic_matches_spec(r.topic, filter@) {
            Some(retained_copy(r, qos))
        } else {
            None
        };
    let mut k: usize = 0;
    assert(rr.take(0) =~= Seq::<RetainedRecord>::empty());
    while k < retained.len()
        invariant
            k <= retained@.len(),
            rr == retained_records(retained@),
            f == (|r: RetainedRecord|
                if topic_matches_spec(r.topic, filter@) {
                    Some(retained_copy(r, qos))
                } else {
                    None
                }),
            publish_models(out@) == base + rr.take(k as int).filter_map(f),
        decreases retained@.len() - k,
    {
        let r = &retained[k];
        proof {
            rr.lemma_filter_map_take_succ(f, k as int);
        }
        assert(rr[k as int] == r@);
        let ghost before = out@;
        if Router::topic_matches(r.topic.as_str(), filter.as_str()) {
            let stored: QoS = QoS::from(r.qos);
            let p = PublishPacket {
                topic: r.topic.clone(),
                packet_id: None,
                payload: bytes_clone(&r.payload),
                qos: stored.min(qos),
                retain: true,
                dup: false,
            };
            out.push(p);
            assert(publish_models(out@) =~= publish_models(before).push(retained_copy(r@, qos)));
        } else {
            assert(publish_models(out@) =~= publish_models(before));
        }
        k += 1;
        assert(base + rr.take(k as int).filter_map(f) =~= base + rr.take(k - 1).filter_map(f) + (
        match f(rr[k - 1]) {
            Some(x) => seq![x],
            None => Seq::empty(),
        }));
    }
    assert(rr.take(retained@.len() as int) =~= rr);
}

impl Router {
    /// Subscribes a session to topic filters. Each valid filter is recorded at
    /// the requested QoS, which is granted; an invalid one gets FAILURE. For
    /// each valid filter, the stored retained messages whose topics match it
    /// are returned for sending, each at the lower of its QoS and the
    /// subscription's; a failed load of retained messages counts as none.
    pub fn subscribe(
        &mut self,
        session_id: &str,
        topic_filters: &[(String, QoS)],
        retained: Result<Vec<PersistedRetainedMessage>, StorageError>,
    ) -> (r: (Vec<u8>, Vec<PublishPacket>))
        requires
            old(self).wf(),
        ensures
            final(self).wf(),
            final(self).limit() == old(self).limit(),
            ({
                let m = subscribe_spec(
                    old(self)@,
                    session_id@,
                    filter_list_view(topic_filters@),
                    loaded_retained(retained),
                );
                &&& final(self)@ == m.entries
                &&& r.0@ == m.codes
                &&& publish_models(r.1@) == m.retained
            }),
    {
        let ghost loaded = loaded_retained(retained);
        let retained_messages = match retained {
            Ok(msgs) => msgs,
            Err(_) => Vec::new(),
        };
        let ghost rr = retained_records(retained_messages@);
        assert(rr =~= loaded);
        let ghost fl = filter_list_view(topic_filters@);
        let ghost e0 = self@;
        let session = session_id.to_owned();
        let mut return_codes: Vec<u8> = Vec::new();
        let mut retained_to_send: Vec<PublishPacket> = Vec::new();
        let mut i: usize = 0;
        assert(fl.take(0) =~= Seq::<(Seq<char>, QoS)>::empty());
        assert(return_codes@ =~= Seq::<u8>::empty());
        assert(publish_models(retained_to_send@) =~= Seq::<PublishModel>::empty());
        while i < topic_filters.len()
            invariant
                self.wf(),
                self.limit() == old(self).limit(),
                i <= topic_filters@.len(),
                fl == filter_list_view(topic_filters@),
                rr == retained_records(retained_messages@),
                session@ == session_id@,
                ({
                    let m = subscribe_spec(e0, session@, fl.take(i as int), rr);
                    &&& self@ == m.entries
                    &&& return_codes@ == m.codes
                    &&& publish_models(retained_to_send@) == m.retained
                }),
            decreases topic_filters@.len() - i,
        {
            let filter = &topic_filters[i].0;
            let qos = topic_filters[i].1;
            assert(fl.take(i + 1).drop_last() =~= fl.take(i as int));
            assert(fl.take(i + 1).last() == (filter@, qos));
            if !Router::is_valid_topic_filter(filter.as_str()) {
                return_codes.push(FAILURE);
            } else {
                self.upsert_one(filter, &session, qos);
                return_codes.push(qos.as_u8());
                push_retained_matches(filter, qos, &retained_messages, &mut retained_to_send);
            }
            i += 1;
        }
        assert(fl.take(topic_filters@.len() as int) =~= fl);
        (return_codes, retained_to_send)
    }

    /// Unsubscribes a session from each of the given filters in turn; a filter
    /// it is not subscribed to is skipped.
    pub fn unsubscribe(&mut self, session_id: &str, topic_filters: &[String])
        requires
            old(self).wf(),
        ensures
            final(self).wf(),
            final(self).limit() == old(self).limit(),
            final(self)@ == remove_keys(old(self)@, string_list_view(topic_filters@), session_id@),
    {
        let ghost fl = string_list_view(topic_filters@);
        let ghost e0 = self@;
        let session = session_id.to_owned();
        let mut i: usize = 0;
        assert(fl.take(0) =~= Seq::<Seq<char>>::empty());
        while i < topic_filters.len()
            invariant
                self.wf(),
                self.limit() == old(self).limit(),
                i <= topic_filters@.len(),
                fl == string_list_view(topic_filters@),
                session@ == session_id@,
                self@ == remove_keys(e0, fl.take(i as int), session@),
            decreases topic_filters@.len() - i,
        {
            assert(fl.take(i + 1).drop_last() =~= fl.take(i as int));
            assert(fl.take(i + 1).last() == topic_filters@[i as int]@);
            self.remove_one(&topic_filters[i], &session);
            i += 1;
        }
        assert(fl.take(topic_filters@.len() as int) =~= fl);
    }

    /// Removes every subscription of a session.
    pub fn unsubscribe_all(&mut self, session_id: &str)
        requires
            old(self).wf(),
        ensures
            final(self).wf(),
            final(self).limit() == old(self).limit(),
            final(self)@ == old(self)@.filter_map(other_sessions(session_id@)),
    {
        let ghost e0 = self@;
        let ghost g = other_sessions(session_id@);
        let session = session_id.to_owned();
        let mut kept: Vec<Subscription> = Vec::new();
        let ghost mut idx: Seq<int> = Seq::empty();
        let mut i: usize = 0;
        assert(e0.take(0) =~= Seq::<SubEntry>::empty());
        assert(entries_view(kept@) =~= Seq::<SubEntry>::empty());
        while i < self.subscriptions.len()
            invariant
                self@ == e0,
                unique_keys(e0),
                valid_filters(e0),
                g == other_sessions(session_id@),
                session@ == session_id@,
                i <= e0.len(),
                entries_view(kept@) == e0.take(i as int).filter_map(g),
                idx.len() == kept@.len(),
                forall|k: int| 0 <= k < idx.len() ==> 0 <= #[trigger] idx[k] < i && e0[idx[k]] == entries_view(kept@)[k],
                forall|k1: int, k2: int| 0 <= k1 < k2 < idx.len() ==> #[trigger] idx[k1] < #[trigger] idx[k2],
            decreases e0.len() - i,
        {
            proof {
                e0.lemma_filter_map_take_succ(g, i as int);
            }
            let s = &self.subscriptions[i];
            assert(e0[i as int] == s@);
            if s.session_id != session {
                let ghost before = kept@;
                kept.push(Subscription { filter: s.filter.clone(), session_id: s.session_id.clone(), qos: s.qos });
                proof {
                    idx = idx.push(i as int);
                }
                assert(entries_view(kept@) =~= entries_view(before).push(e0[i as int]));
            }
            i += 1;
        }
        assert(e0.take(e0.len() as int) =~= e0);
        let ghost kv = entries_view(kept@);
        assert(unique_keys(kv)) by {
            assert forall|a: int, b: int|
                0 <= a < kv.len() && 0 <= b < kv.len() && #[trigger] kv[a].0 == #[trigger] kv[b].0 && kv[a].1 == kv[b].1 implies a == b by {
                assert(e0[idx[a]] == kv[a] && e0[idx[b]] == kv[b]);
                assert(e0[idx[a]].0 == e0[idx[b]].0);
                if a < b {
                    assert(idx[a] < idx[b]);
                } else if b < a {
                    assert(idx[b] < idx[a]);
                }
            }
        }
        assert(valid_filters(kv)) by {
            assert forall|k: int| 0 <= k < kv.len() implies valid_topic_filter(#[trigger] kv[k].0) by {
                assert(e0[idx[k]] == kv[k]);
            }
        }
        self.subscriptions = kept;
    }

    /// The filters a session is subscribed to, with their QoS levels.
    pub fn get_subscriptions(&self, session_id: &str) -> (r: Vec<(String, QoS)>)
        requires
            self.wf(),
        ensures
            filter_list_view(r@) == self@.filter_map(session_filters(session_id@)),
    {
        let ghost e0 = self@;
        let ghost g = session_filters(session_id@);
        let session = session_id.to_owned();
        let mut result: Vec<(String, QoS)> = Vec::new();
        let mut i: usize = 0;
        assert(e0.take(0) =~= Seq::<SubEntry>::empty());
        assert(filter_list_view(result@) =~= Seq::<(Seq<char>, QoS)>::empty());
        while i < self.subscriptions.len()
            invariant
                self@ == e0,
                g == session_filters(session_id@),
                session@ == session_id@,
                i <= e0.len(),
                filter_list_view(result@) == e0.take(i as int).filter_map(g),
            decreases e0.len() - i,
        {
            proof {
                e0.lemma_filter_map_take_succ(g, i as int);
            }
            let s = &self.subscriptions[i];
            assert(e0[i as int] == s@);
            if s.session_id == session {
                let ghost before = result@;
                result.push((s.filter.clone(), s.qos));
                assert(filter_list_view(result@) =~= filter_list_view(before).push((s.filter@, s.qos)));
            }
            i += 1;
        }
        assert(e0.take(e0.len() as int) =~= e0);
        result
    }
}

impl Router {
    /// The retained-message update for a published message; see
    /// `retained_update_spec`. `existing` is whether the topic has a retained
    /// message and `count` how many are stored, each as the store answered.
    pub fn retained_update(
        &self,
        packet: &PublishPacket,
        existing: Result<bool, StorageError>,
        count: Result<usize, StorageError>,
        now: i64,
    ) -> (r: RetainedUpdate)
        ensures
            r@ == retained_update_spec(packet@, existing, count, self.limit(), now),
    {
        if !packet.retain {
            return RetainedUpdate::Unchanged;
        }
        if bytes_len(&packet.payload) == 0 {
            return RetainedUpdate::Delete(packet.topic.clone());
        }
        let is_new = match existing {
            Ok(false) => true,
            _ => false,
        };
        let n = match count {
            Ok(n) => n,
            Err(_) => 0,
        };
        if is_new && n >= self.retained_message_limit {
            RetainedUpdate::LimitReached
        } else {
            RetainedUpdate::Store(
                PersistedRetainedMessage {
                    topic: packet.topic.clone(),
                    payload: bytes_clone(&packet.payload),
                    qos: StoredQoS::from(packet.qos),
                    updated_at: now,
                },
            )
        }
    }

    /// The deliveries of a published message: one per subscription whose
    /// filter matches the topic, in table order, each at the lower of the
    /// message's and the subscription's QoS.
    pub fn deliveries(&self, packet: &PublishPacket) -> (r: Vec<Delivery>)
        ensures
            deliveries_view(r@) == self@.filter_map(deliveries_for(packet@)),
    {
        let ghost e0 = self@;
        let ghost g = deliveries_for(packet@);
        let mut result: Vec<Delivery> = Vec::new();
        let mut i: usize = 0;
        assert(e0.take(0) =~= Seq::<SubEntry>::empty());
        assert(deliveries_view(result@) =~= Seq::<(Seq<char>, PublishModel)>::empty());
        while i < self.subscriptions.len()
            invariant
                self@ == e0,
                g == deliveries_for(packet@),
                i <= e0.len(),
                deliveries_view(result@) == e0.take(i as int).filter_map(g),
            decreases e0.len() - i,
        {
            proof {
                e0.lemma_filter_map_take_succ(g, i as int);
            }
            let s = &self.subscriptions[i];
            assert(e0[i as int] == s@);
            if Router::topic_matches(packet.topic.as_str(), s.filter.as_str()) {
                let ghost before = result@;
                let forward = PublishPacket {
                    topic: packet.topic.clone(),
                    packet_id: None,
                    payload: bytes_clone(&packet.payload),
                    qos: packet.qos.min(s.qos),
                    retain: false,
                    dup: false,
                };
                result.push(Delivery { session_id: s.session_id.clone(), packet: forward });
                assert(deliveries_view(result@) =~= deliveries_view(before).push(
                    (s.session_id@, forwarded(packet@, s.qos)),
                ));
            }
            i += 1;
        }
        assert(e0.take(e0.len() as int) =~= e0);
        result
    }

    /// Routes a published message: nothing for an invalid topic name;
    /// otherwise the retained-message update and the deliveries.
    pub fn route(
        &self,
        packet: &PublishPacket,
        existing: Result<bool, StorageError>,
        count: Result<usize, StorageError>,
        now: i64,
    ) -> (r: RouteOutcome)
        ensures
            !valid_topic_name(packet@.topic) ==> r.retained@ == RetainedUpdateModel::Unchanged
                && r.deliveries@.len() == 0,
            valid_topic_name(packet@.topic) ==> r.retained@ == retained_update_spec(
                packet@,
                existing,
                count,
                self.limit(),
                now,
            ) && deliveries_view(r.deliveries@) == self@.filter_map(deliveries_for(packet@)),
    {
        if !Router::is_valid_topic_name(packet.topic.as_str()) {
            return RouteOutcome { retained: RetainedUpdate::Unchanged, deliveries: Vec::new() };
        }
        let retained = self.retained_update(packet, existing, count, now);
        let deliveries = self.deliveries(packet);
        RouteOutcome { retained, deliveries }
    }
}

// ---------------------------------------------------------------------------
// Laws
// ---------------------------------------------------------------------------

/// An element is in a `filter_map` exactly when some element maps to it.
pub proof fn lemma_filter_map_contains_iff<A, B>(e: Seq<A>, f: spec_fn(A) -> Option<B>, y: B)
    ensures
        e.filter_map(f).contains(y) <==> exists|j: int| 0 <= j < e.len() && f(e[j]) == Some(y),
    decreases e.len(),
{
    if e.len() > 0 {
        let rest = e.drop_last();
        lemma_filter_map_contains_iff(rest, f, y);
        assert forall|j: int| 0 <= j < rest.len() implies rest[j] == e[j] by {}
        match f(e.last()) {
            Some(x) => {
                let r = rest.filter_map(f) + seq![x];
                assert(e.filter_map(f) == r);
                if r.contains(y) {
                    let k = choose|k: int| 0 <= k < r.len() && r[k] == y;
                    if k < rest.filter_map(f).len() {
                        assert(rest.filter_map(f).contains(y));
                        let j = choose|j: int| 0 <= j < rest.len() && f(rest[j]) == Some(y);
                        assert(f(e[j]) == Some(y));
                    } else {
                        assert(f(e[e.len() - 1]) == Some(y));
                    }
                }
                if exists|j: int| 0 <= j < e.len() && f(e[j]) == Some(y) {
                    let j = choose|j: int| 0 <= j < e.len() && f(e[j]) == Some(y);
                    if j < rest.len() {
                        assert(f(rest[j]) == Some(y));
                        let k = choose|k: int| 0 <= k < rest.filter_map(f).len() && rest.filter_map(f)[k] == y;
                        assert(r[k] == y);
                    } else {
                        assert(r[r.len() - 1] == y);
                    }
                }
            },
            None => {
                assert(e.filter_map(f) == rest.filter_map(f));
                if exists|j: int| 0 <= j < e.len() && f(e[j]) == Some(y) {
                    let j = choose|j: int| 0 <= j < e.len() && f(e[j]) == Some(y);
                    assert(j < rest.len());
                    assert(f(rest[j]) == Some(y));
                }
                if rest.filter_map(f).contains(y) {
                    let j = choose|j: int| 0 <= j < rest.len() && f(rest[j]) == Some(y);
                    assert(f(e[j]) == Some(y));
                }
            },
        }
    }
}

/// A message is delivered to session `s` exactly when `s` holds a subscription
/// whose filter matches the topic, and the copy it gets carries the lower of
/// the two QoS levels.
pub proof fn lemma_route_reaches_matching_subscribers(
    e: Seq<SubEntry>,
    p: PublishModel,
    s: Seq<char>,
    m: PublishModel,
)
    ensures
        e.filter_map(deliveries_for(p)).contains((s, m)) <==> exists|j: int|
            0 <= j < e.len() && e[j].1 == s && topic_matches_spec(p.topic, e[j].0) && m
                == forwarded(p, e[j].2),
{
    lemma_filter_map_contains_iff(e, deliveries_for(p), (s, m));
}

/// After subscribing session `s` to a valid filter `f` at QoS `q`, the
/// session's subscriptions include `f` at `q`, and only once.
pub proof fn lemma_subscribe_records_filter(
    e: Seq<SubEntry>,
    s: Seq<char>,
    f: Seq<char>,
    q: QoS,
    retained: Seq<RetainedRecord>,
)
    requires
        unique_keys(e),
        valid_topic_filter(f),
    ensures
        subscribe_spec(e, s, seq![(f, q)], retained).entries.filter_map(session_filters(s)).contains(
            (f, q),
        ),
        subscribe_spec(e, s, seq![(f, q)], retained).codes == seq![qos_num(q)],
{
    let fl = seq![(f, q)];
    assert(fl.drop_last() =~= Seq::<(Seq<char>, QoS)>::empty());
    let m0 = subscribe_spec(e, s, fl.drop_last(), retained);
    assert(m0.entries == e && m0.codes == Seq::<u8>::empty());
    assert(fl.last() == (f, q));
    let e2 = upsert(e, f, s, q);
    assert(subscribe_spec(e, s, fl, retained).entries == e2);
    let j = if exists|j: int| has_key(e, j, f, s) {
        choose|j: int| has_key(e, j, f, s)
    } else {
        e.len() as int
    };
    assert(e2[j] == (f, s, q));
    lemma_filter_map_contains_iff(e2, session_filters(s), (f, q));
    assert(subscribe_spec(e, s, fl, retained).codes =~= seq![qos_num(q)]);
}

/// After a session unsubscribes from everything, it holds no subscription and
/// no published message is delivered to it.
pub proof fn lemma_unsubscribe_all_stops_delivery(e: Seq<SubEntry>, s: Seq<char>, p: PublishModel, m: PublishModel)
    ensures
        e.filter_map(other_sessions(s)).filter_map(session_filters(s)).len() == 0,
        !e.filter_map(other_sessions(s)).filter_map(deliveries_for(p)).contains((s, m)),
{
    let e2 = e.filter_map(other_sessions(s));
    assert forall|j: int| 0 <= j < e2.len() implies e2[j].1 != s by {
        assert(e2.contains(e2[j]));
        lemma_filter_map_contains_iff(e, other_sessions(s), e2[j]);
    }
    let g = e2.filter_map(session_filters(s));
    if g.len() > 0 {
        assert(g.contains(g[0]));
        lemma_filter_map_contains_iff(e2, session_filters(s), g[0]);
    }
    lemma_filter_map_contains_iff(e2, deliveries_for(p), (s, m));
}

/// After a session unsubscribes from a filter, it holds no subscription to it.
pub proof fn lemma_unsubscribe_removes_filter(e: Seq<SubEntry>, f: Seq<char>, s: Seq<char>)
    requires
        unique_keys(e),
    ensures
        !exists|j: int| has_key(remove_key(e, f, s), j, f, s),
{
    if exists|j: int| has_key(e, j, f, s) {
        let j = choose|j: int| has_key(e, j, f, s);
        let e2 = e.remove(j);
        assert forall|k: int| !has_key(e2, k, f, s) by {
            if has_key(e2, k, f, s) {
                let k0 = if k < j { k } else { k + 1 };
                assert(e2[k] == e[k0]);
                assert(e[k0].0 == e[j].0 && e[k0].1 == e[j].1);
            }
        }
    }
}

/// The QoS at which session `s` holds a subscription to filter `f`, if it
/// holds one.
pub open spec fn subscribed_qos(e: Seq<SubEntry>, f: Seq<char>, s: Seq<char>) -> Option<QoS> {
    if exists|j: int| has_key(e, j, f, s) {
        Some(e[choose|j: int| has_key(e, j, f, s)].2)
    } else {
        None
    }
}

/// The QoS of the last request for filter `f` among `filters`, when `f` is a
/// valid filter that is requested.
pub open spec fn last_request(filters: Seq<(Seq<char>, QoS)>, f: Seq<char>) -> Option<QoS>
    decreases filters.len(),
{
    if filters.len() == 0 {
        None
    } else if filters.last().0 == f && valid_topic_filter(f) {
        Some(filters.last().1)
    } else {
        last_request(filters.drop_last(), f)
    }
}

/// With unique keys, the subscription found at any index holding the key is
/// the one `subscribed_qos` reports.
proof fn lemma_subscribed_at(e: Seq<SubEntry>, j: int, f: Seq<char>, s: Seq<char>)
    requires
        unique_keys(e),
        has_key(e, j, f, s),
    ensures
        subscribed_qos(e, f, s) == Some(e[j].2),
{
    let k = choose|k: int| has_key(e, k, f, s);
    assert(has_key(e, k, f, s));
    assert(e[k].0 == e[j].0 && e[k].1 == e[j].1);
}

/// Upserting keeps keys unique, sets the upserted key and leaves every other
/// key as it was.
proof fn lemma_upsert_lookup(e: Seq<SubEntry>, f: Seq<char>, s: Seq<char>, q: QoS)
    requires
        unique_keys(e),
    ensures
        unique_keys(upsert(e, f, s, q)),
        forall|g: Seq<char>, t: Seq<char>|
            #[trigger] subscribed_qos(upsert(e, f, s, q), g, t) == if g == f && t == s {
                Some(q)
            } else {
                subscribed_qos(e, g, t)
            },
{
    let e2 = upsert(e, f, s, q);
    let j = if exists|j: int| has_key(e, j, f, s) {
        choose|j: int| has_key(e, j, f, s)
    } else {
        e.len() as int
    };
    assert(e2.len() == e.len() || e2.len() == e.len() + 1);
    assert(e2[j] == (f, s, q));
    assert forall|k: int| 0 <= k < e2.len() && k != j implies #[trigger] e2[k] == e[k] by {}
    assert(unique_keys(e2)) by {
        assert forall|a: int, b: int|
            0 <= a < e2.len() && 0 <= b < e2.len() && #[trigger] e2[a].0 == #[trigger] e2[b].0 && e2[a].1 == e2[b].1 implies a == b by {
            if a != j && b != j {
                assert(e2[a] == e[a] && e2[b] == e[b]);
            } else if a == j && b != j {
                assert(e2[b] == e[b]);
                assert(has_key(e, b, f, s));
            } else if b == j && a != j {
                assert(e2[a] == e[a]);
                assert(has_key(e, a, f, s));
            }
        }
    }
    assert forall|g: Seq<char>, t: Seq<char>|
        #[trigger] subscribed_qos(e2, g, t) == if g == f && t == s {
            Some(q)
        } else {
            subscribed_qos(e, g, t)
        } by {
        if g == f && t == s {
            lemma_subscribed_at(e2, j, f, s);
        } else {
            if exists|k: int| has_key(e, k, g, t) {
                let k = choose|k: int| has_key(e, k, g, t);
                assert(k != j);
                assert(has_key(e2, k, g, t));
                lemma_subscribed_at(e, k, g, t);
                lemma_subscribed_at(e2, k, g, t);
            } else {
                assert forall|k: int| !has_key(e2, k, g, t) by {
                    if has_key(e2, k, g, t) {
                        assert(k != j);
                        assert(has_key(e, k, g, t));
                    }
                }
            }
        }
    }
}

/// Subscribing session `s` to `filters` keeps one subscription per session
/// and filter; for each valid filter requested, the session then holds it at
/// the QoS of the last request for it; invalid filters add nothing; every
/// other subscription, of this session or of any other, is unchanged.
pub proof fn lemma_subscribe_law(
    e: Seq<SubEntry>,
    s: Seq<char>,
    filters: Seq<(Seq<char>, QoS)>,
    retained: Seq<RetainedRecord>,
)
    requires
        unique_keys(e),
    ensures
        unique_keys(subscribe_spec(e, s, filters, retained).entries),
        forall|f: Seq<char>, t: Seq<char>|
            #[trigger] subscribed_qos(subscribe_spec(e, s, filters, retained).entries, f, t) == if t
                == s && last_request(filters, f) is Some {
                last_request(filters, f)
            } else {
                subscribed_qos(e, f, t)
            },
    decreases filters.len(),
{
    if filters.len() > 0 {
        let rest = filters.drop_last();
        lemma_subscribe_law(e, s, rest, retained);
        let m = subscribe_spec(e, s, rest, retained);
        let (g, q) = filters.last();
        if valid_topic_filter(g) {
            lemma_upsert_lookup(m.entries, g, s, q);
        }
    }
}

/// Removing a key keeps keys unique, removes that key and leaves every other
/// key as it was.
proof fn lemma_remove_key_lookup(e: Seq<SubEntry>, f: Seq<char>, s: Seq<char>)
    requires
        unique_keys(e),
    ensures
        unique_keys(remove_key(e, f, s)),
        forall|g: Seq<char>, t: Seq<char>|
            #[trigger] subscribed_qos(remove_key(e, f, s), g, t) == if g == f && t == s {
                None
            } else {
                subscribed_qos(e, g, t)
            },
{
    let e2 = remove_key(e, f, s);
    if exists|j: int| has_key(e, j, f, s) {
        let j = choose|j: int| has_key(e, j, f, s);
        assert forall|k: int| 0 <= k < e2.len() implies #[trigger] e2[k] == e[if k < j { k } else { k + 1 }] by {}
        assert(unique_keys(e2)) by {
            assert forall|a: int, b: int|
                0 <= a < e2.len() && 0 <= b < e2.len() && #[trigger] e2[a].0 == #[trigger] e2[b].0 && e2[a].1 == e2[b].1 implies a == b by {
                let a0 = if a < j { a } else { a + 1 };
                let b0 = if b < j { b } else { b + 1 };
                assert(e2[a] == e[a0] && e2[b] == e[b0]);
            }
        }
        assert forall|g: Seq<char>, t: Seq<char>|
            #[trigger] subscribed_qos(e2, g, t) == if g == f && t == s {
                None
            } else {
                subscribed_qos(e, g, t)
            } by {
            if g == f && t == s {
                assert forall|k: int| !has_key(e2, k, g, t) by {
                    if has_key(e2, k, g, t) {
                        let k0 = if k < j { k } else { k + 1 };
                        assert(e2[k] == e[k0]);
                        assert(e[k0].0 == e[j].0 && e[k0].1 == e[j].1);
                    }
                }
            } else if exists|k: int| has_key(e, k, g, t) {
                let k = choose|k: int| has_key(e, k, g, t);
                assert(k != j);
                let k2 = if k < j { k } else { k - 1 };
                assert(e2[k2] == e[k]);
                assert(has_key(e2, k2, g, t));
                lemma_subscribed_at(e, k, g, t);
                lemma_subscribed_at(e2, k2, g, t);
            } else {
                assert forall|k: int| !has_key(e2, k, g, t) by {
                    if has_key(e2, k, g, t) {
                        let k0 = if k < j { k } else { k + 1 };
                        assert(e2[k] == e[k0]);
                        assert(has_key(e, k0, g, t));
                    }
                }
            }
        }
    } else {
        assert forall|g: Seq<char>, t: Seq<char>|
            #[trigger] subscribed_qos(e2, g, t) == if g == f && t == s {
                None
            } else {
                subscribed_qos(e, g, t)
            } by {
            if g == f && t == s {
                assert(!exists|k: int| has_key(e2, k, g, t));
            }
        }
    }
}

/// Unsubscribing session `s` from `filters` removes its subscription to each
/// listed filter (a filter it does not hold is skipped) and leaves every other
/// subscription, of this session or of any other, as it was.
pub proof fn lemma_unsubscribe_law(e: Seq<SubEntry>, filters: Seq<Seq<char>>, s: Seq<char>)
    requires
        unique_keys(e),
    ensures
        unique_keys(remove_keys(e, filters, s)),
        forall|f: Seq<char>, t: Seq<char>|
            #[trigger] subscribed_qos(remove_keys(e, filters, s), f, t) == if t == s
                && filters.contains(f) {
                None
            } else {
                subscribed_qos(e, f, t)
            },
    decreases filters.len(),
{
    if filters.len() > 0 {
        let rest = filters.drop_last();
        lemma_unsubscribe_law(e, rest, s);
        lemma_remove_key_lookup(remove_keys(e, rest, s), filters.last(), s);
        assert forall|f: Seq<char>| #[trigger] filters.contains(f) <==> (rest.contains(f) || f == filters.last()) by {
            if filters.contains(f) {
                let k = choose|k: int| 0 <= k < filters.len() && filters[k] == f;
                if k < rest.len() {
                    assert(rest[k] == f);
                }
            }
            if rest.contains(f) {
                let k = choose|k: int| 0 <= k < rest.len() && rest[k] == f;
                assert(filters[k] == f);
            }
            if f == filters.last() {
                assert(filters[filters.len() - 1] == f);
            }
        }
    }
}

/// A session's subscriptions as the table reports them are exactly its
/// subscribed filters at their QoS.
pub proof fn lemma_session_filters_lookup(e: Seq<SubEntry>, s: Seq<char>, f: Seq<char>, q: QoS)
    requires
        unique_keys(e),
    ensures
        e.filter_map(session_filters(s)).contains((f, q)) <==> subscribed_qos(e, f, s) == Some(q),
{
    lemma_filter_map_contains_iff(e, session_filters(s), (f, q));
    if exists|j: int| 0 <= j < e.len() && session_filters(s)(e[j]) == Some((f, q)) {
        let j = choose|j: int| 0 <= j < e.len() && session_filters(s)(e[j]) == Some((f, q));
        assert(has_key(e, j, f, s));
        lemma_subscribed_at(e, j, f, s);
    }
    if subscribed_qos(e, f, s) == Some(q) {
        let j = choose|j: int| has_key(e, j, f, s);
        assert(session_filters(s)(e[j]) == Some((f, q)));
    }
}

/// A valid table holds one subscription per session and filter, each to a
/// valid filter.
pub proof fn lemma_wf_unique_keys(r: &Router)
    requires
        r.wf(),
    ensures
        unique_keys(r@),
        valid_filters(r@),
{
}

/// Storing a retained message under its topic keeps one message per topic,
/// grows the store by one exactly for a new topic, and makes the message the
/// topic's.
proof fn lemma_put_retained(o: Seq<RetainedRecord>, m: RetainedRecord)
    requires
        unique_keyed::<PersistedRetainedMessage>(o),
    ensures
        ({
            let n = put_keyed::<PersistedRetainedMessage>(o, m);
            &&& unique_keyed::<PersistedRetainedMessage>(n)
            &&& n.len() == o.len() + if has_keyed::<PersistedRetainedMessage>(o, m.topic) { 0int } else { 1int }
            &&& has_keyed::<PersistedRetainedMessage>(n, m.topic)
            &&& keyed::<PersistedRetainedMessage>(n, m.topic) == m
        }),
{
    let c = m.topic;
    let n = put_keyed::<PersistedRetainedMessage>(o, m);
    let j = if has_keyed::<PersistedRetainedMessage>(o, c) {
        choose|j: int| keyed_at::<PersistedRetainedMessage>(o, j, c)
    } else {
        o.len() as int
    };
    assert(n[j] == m);
    assert forall|k: int| 0 <= k < n.len() && k != j implies #[trigger] n[k] == o[k] by {}
    assert(unique_keyed::<PersistedRetainedMessage>(n)) by {
        assert forall|a: int, b: int|
            0 <= a < n.len() && 0 <= b < n.len() && PersistedRetainedMessage::key_of(#[trigger] n[a])
                == PersistedRetainedMessage::key_of(#[trigger] n[b]) implies a == b by {
            if a != j && b != j {
                assert(n[a] == o[a] && n[b] == o[b]);
            } else if a == j && b != j {
                assert(n[b] == o[b]);
                assert(keyed_at::<PersistedRetainedMessage>(o, b, c));
            } else if b == j && a != j {
                assert(n[a] == o[a]);
                assert(keyed_at::<PersistedRetainedMessage>(o, a, c));
            }
        }
    }
    assert(keyed_at::<PersistedRetainedMessage>(n, j, c));
    let k = choose|k: int| keyed_at::<PersistedRetainedMessage>(n, k, c);
    assert(keyed_at::<PersistedRetainedMessage>(n, k, c));
    assert(PersistedRetainedMessage::key_of(n[k]) == PersistedRetainedMessage::key_of(n[j]));
}

/// The retained store after a published message's retained update is applied
/// to it: stored under its topic, deleted, or left as it was.
pub open spec fn apply_retained(o: Seq<RetainedRecord>, u: RetainedUpdateModel) -> Seq<RetainedRecord> {
    match u {
        RetainedUpdateModel::Store(m) => put_keyed::<PersistedRetainedMessage>(o, m),
        RetainedUpdateModel::Delete(t) => drop_keyed::<PersistedRetainedMessage>(o, t),
        _ => o,
    }
}

/// The retained-message limit holds across publishes: when the store holds
/// at most `limit` messages and the update is decided on the store's own
/// answers (whether the topic has a message, how many are stored), applying
/// it keeps at most `limit` messages, one per topic. A message to retain
/// replaces the topic's message, or is added when the store is below the
/// limit; a new topic at the limit leaves the store as it was.
pub proof fn lemma_retained_limit(o: Seq<RetainedRecord>, p: PublishModel, limit: usize, now: i64)
    requires
        unique_keyed::<PersistedRetainedMessage>(o),
        o.len() <= limit,
    ensures
        ({
            let existing = has_keyed::<PersistedRetainedMessage>(o, p.topic);
            let u = retained_update_spec(
                p,
                Ok::<bool, StorageError>(existing),
                Ok::<usize, StorageError>(o.len() as usize),
                limit,
                now,
            );
            let n = apply_retained(o, u);
            &&& unique_keyed::<PersistedRetainedMessage>(n)
            &&& n.len() <= limit
            &&& (p.retain && p.payload.len() > 0 && (existing || o.len() < limit)) ==> {
                &&& has_keyed::<PersistedRetainedMessage>(n, p.topic)
                &&& keyed::<PersistedRetainedMessage>(n, p.topic) == (RetainedRecord {
                    topic: p.topic,
                    payload: p.payload,
                    qos: stored_from_qos(p.qos),
                    updated_at: now,
                })
                &&& n.len() == o.len() + if existing { 0int } else { 1int }
            }
            &&& (p.retain && p.payload.len() > 0 && !existing && o.len() >= limit) ==> n == o
        }),
{
    let existing = has_keyed::<PersistedRetainedMessage>(o, p.topic);
    if p.retain {
        if p.payload.len() == 0 {
            if existing {
                let j = choose|j: int| keyed_at::<PersistedRetainedMessage>(o, j, p.topic);
                let n = o.remove(j);
                assert forall|a: int, b: int|
                    0 <= a < n.len() && 0 <= b < n.len() && PersistedRetainedMessage::key_of(#[trigger] n[a])
                        == PersistedRetainedMessage::key_of(#[trigger] n[b]) implies a == b by {
                    let a0 = if a < j { a } else { a + 1 };
                    let b0 = if b < j { b } else { b + 1 };
                    assert(n[a] == o[a0] && n[b] == o[b0]);
                }
            }
        } else if existing || o.len() < limit {
            let m = RetainedRecord {
                topic: p.topic,
                payload: p.payload,
                qos: stored_from_qos(p.qos),
                updated_at: now,
            };
            lemma_put_retained(o, m);
        }
    }
}

/// Dropping the last subscription leaves every other key's lookup as it was.
proof fn lemma_subscribed_drop_last(e: Seq<SubEntry>, f: Seq<char>, s: Seq<char>)
    requires
        unique_keys(e),
        e.len() > 0,
        !(e.last().0 == f && e.last().1 == s),
    ensures
        unique_keys(e.drop_last()),
        subscribed_qos(e, f, s) == subscribed_qos(e.drop_last(), f, s),
{
    let r = e.drop_last();
    assert forall|k: int| 0 <= k < r.len() implies #[trigger] r[k] == e[k] by {}
    assert(unique_keys(r)) by {
        assert forall|a: int, b: int|
            0 <= a < r.len() && 0 <= b < r.len() && #[trigger] r[a].0 == #[trigger] r[b].0 && r[a].1 == r[b].1 implies a == b by {
            assert(r[a] == e[a] && r[b] == e[b]);
        }
    }
    if exists|k: int| has_key(e, k, f, s) {
        let k = choose|k: int| has_key(e, k, f, s);
        assert(k < r.len());
        assert(has_key(r, k, f, s));
        lemma_subscribed_at(e, k, f, s);
        lemma_subscribed_at(r, k, f, s);
    } else {
        assert forall|k: int| !has_key(r, k, f, s) by {
            if has_key(r, k, f, s) {
                assert(has_key(e, k, f, s));
            }
        }
    }
}

/// Requesting a session's own subscriptions, as the table lists them, asks
/// for each of its filters at its QoS and for nothing else.
proof fn lemma_last_request_of_session(e: Seq<SubEntry>, s: Seq<char>, f: Seq<char>)
    requires
        unique_keys(e),
        valid_filters(e),
    ensures
        last_request(e.filter_map(session_filters(s)), f) == subscribed_qos(e, f, s),
    decreases e.len(),
{
    let g = session_filters(s);
    if e.len() == 0 {
        assert(e.filter_map(g) =~= Seq::<(Seq<char>, QoS)>::empty());
    } else {
        let r = e.drop_last();
        let x = e.last();
        assert(valid_filters(r)) by {
            assert forall|k: int| 0 <= k < r.len() implies valid_topic_filter(#[trigger] r[k].0) by {
                assert(r[k] == e[k]);
            }
        }
        assert(valid_topic_filter(x.0)) by {
            assert(x == e[e.len() - 1]);
        }
        if x.1 == s {
            assert(e.filter_map(g) == r.filter_map(g).push((x.0, x.2)));
            if x.0 == f {
                assert(has_key(e, e.len() - 1, f, s));
                lemma_subscribed_at(e, e.len() - 1, f, s);
            } else {
                lemma_subscribed_drop_last(e, f, s);
                lemma_last_request_of_session(r, s, f);
                assert(r.filter_map(g).push((x.0, x.2)).drop_last() =~= r.filter_map(g));
            }
        } else {
            assert(e.filter_map(g) == r.filter_map(g));
            lemma_subscribed_drop_last(e, f, s);
            lemma_last_request_of_session(r, s, f);
        }
    }
}

/// Re-subscribing a session that holds nothing to another session's
/// subscriptions, as a valid table lists them, gives it exactly those filters
/// at the same QoS: for every filter, the new session's QoS is the one the
/// other session held in the listed table.
pub proof fn lemma_resubscribe_same_filters(
    listed: Seq<SubEntry>,
    old_id: Seq<char>,
    e: Seq<SubEntry>,
    new_id: Seq<char>,
    retained: Seq<RetainedRecord>,
)
    requires
        unique_keys(listed),
        valid_filters(listed),
        unique_keys(e),
        forall|f: Seq<char>| #[trigger] subscribed_qos(e, f, new_id) is None,
    ensures
        forall|f: Seq<char>|
            #[trigger] subscribed_qos(
                subscribe_spec(e, new_id, listed.filter_map(session_filters(old_id)), retained).entries,
                f,
                new_id,
            ) == subscribed_qos(listed, f, old_id),
{
    let subs = listed.filter_map(session_filters(old_id));
    lemma_subscribe_law(e, new_id, subs, retained);
    assert forall|f: Seq<char>|
        #[trigger] subscribed_qos(subscribe_spec(e, new_id, subs, retained).entries, f, new_id)
            == subscribed_qos(listed, f, old_id) by {
        lemma_last_request_of_session(listed, old_id, f);
        assert(subscribed_qos(e, f, new_id) is None);
    }
}

/// Every copy routing hands out is a first transmission of the published
/// message: not a duplicate, not retained, without a packet id, with the
/// published topic and payload, and for a session holding a matching
/// subscription whose QoS, with the published one, bounds it: the copy's QoS
/// is the lower of the two.
pub proof fn lemma_deliveries_are_fresh_copies(e: Seq<SubEntry>, p: PublishModel, s: Seq<char>, m: PublishModel)
    requires
        e.filter_map(deliveries_for(p)).contains((s, m)),
    ensures
        !m.dup,
        !m.retain,
        m.packet_id is None,
        m.topic == p.topic,
        m.payload == p.payload,
        exists|j: int|
            0 <= j < e.len() && e[j].1 == s && topic_matches_spec(p.topic, e[j].0) && qos_num(m.qos) == if qos_num(
                p.qos,
            ) <= qos_num(e[j].2) {
                qos_num(p.qos)
            } else {
                qos_num(e[j].2)
            },
{
    lemma_filter_map_contains_iff(e, deliveries_for(p), (s, m));
    let j = choose|j: int| 0 <= j < e.len() && deliveries_for(p)(e[j]) == Some((s, m));
    assert(m == forwarded(p, e[j].2));
}

/// Every retained message that subscribing returns is a first transmission
/// marked as retained: not a duplicate, retained, without a packet id; it is
/// a stored retained message's topic and payload, at a QoS no higher than the
/// stored one.
pub proof fn lemma_subscribe_retained_fresh(
    e: Seq<SubEntry>,
    s: Seq<char>,
    filters: Seq<(Seq<char>, QoS)>,
    retained: Seq<RetainedRecord>,
    k: int,
)
    requires
        0 <= k < subscribe_spec(e, s, filters, retained).retained.len(),
    ensures
        ({
            let x = subscribe_spec(e, s, filters, retained).retained[k];
            &&& !x.dup
            &&& x.retain
            &&& x.packet_id is None
            &&& exists|i: int|
                0 <= i < retained.len() && retained[i].topic == x.topic && retained[i].payload == x.payload
                    && qos_num(x.qos) <= qos_num(qos_from_stored(retained[i].qos))
        }),
    decreases filters.len(),
{
    if filters.len() > 0 {
        let rest = filters.drop_last();
        let m = subscribe_spec(e, s, rest, retained);
        let (f, q) = filters.last();
        if k < m.retained.len() {
            lemma_subscribe_retained_fresh(e, s, rest, retained, k);
            if valid_topic_filter(f) {
                assert((m.retained + retained_for(f, q, retained))[k] == m.retained[k]);
            }
        } else {
            let rf = retained_for(f, q, retained);
            let x = rf[k - m.retained.len()];
            assert(subscribe_spec(e, s, filters, retained).retained[k] == x);
            let g = |r: RetainedRecord|
                if topic_matches_spec(r.topic, f) {
                    Some(retained_copy(r, q))
                } else {
                    None
                };
            assert(rf == retained.filter_map(g));
            assert(rf.contains(x));
            lemma_filter_map_contains_iff(retained, g, x);
            let i = choose|i: int| 0 <= i < retained.len() && g(retained[i]) == Some(x);
            assert(x == retained_copy(retained[i], q));
        }
    }
}

/// The retained-message update of a published message: nothing unless it
/// asks to be retained; an empty payload deletes the topic's retained
/// message; otherwise the message (topic, payload, the stored number of its
/// QoS, time `now`) is stored, unless the topic has none yet (as the store
/// answered) and the store already holds `limit` messages.
pub proof fn lemma_retained_update_cases(
    p: PublishModel,
    existing: Result<bool, StorageError>,
    count: Result<usize, StorageError>,
    limit: usize,
    now: i64,
)
    ensures
        ({
            let u = retained_update_spec(p, existing, count, limit, now);
            let n: int = match count {
                Ok(n) => n as int,
                Err(_) => 0,
            };
            &&& !p.retain ==> u == RetainedUpdateModel::Unchanged
            &&& (p.retain && p.payload.len() == 0) ==> u == RetainedUpdateModel::Delete(p.topic)
            &&& (p.retain && p.payload.len() > 0 && existing == Ok::<bool, StorageError>(false) && n >= limit)
                ==> u == RetainedUpdateModel::LimitReached
            &&& (p.retain && p.payload.len() > 0 && !(existing == Ok::<bool, StorageError>(false) && n >= limit))
                ==> (u matches RetainedUpdateModel::Store(r) && r.topic == p.topic && r.payload == p.payload
                && crate::storage::types::stored_qos_num(r.qos) == qos_num(p.qos) && r.updated_at == now)
        }),
{
}
} // verus!
