//! In-memory model of the store the pipeline runs against: the known
//! topics, the per-topic subscriber sets, the seen-markers with their
//! expiry instants, and the delivery queue. Every operation the pipeline
//! performs on the live store has its counterpart here, with an exact
//! contract, so the pipeline's behaviour is verified against the store's
//! documented semantics and can be exercised without any server.

use vstd::prelude::*;
use vstd::hash_map::StringHashMap;
use crate::SEEN_TTL;
use crate::queue::DeliveryQueue;
use crate::queue::QueueView;
use crate::queue::ack_spec;
use crate::queue::claim_spec;
use crate::queue::fail_spec;
use crate::queue::inflight_has;
use crate::queue::push_spec;
use crate::reddit::Submission;
use crate::reddit::key_of;
use crate::reddit::tag_of;

verus! {

/// A seen-marker: the tag written for an item, and the instant at which
/// the marker lapses.
pub struct Marker {
    pub tag: String,
    pub expires_at: i64,
}

/// What a `Marker` denotes.
#[verifier::ext_equal]
pub ghost struct MarkerView {
    pub tag: Seq<char>,
    pub expires_at: int,
}

impl View for Marker {
    type V = MarkerView;

    open spec fn view(&self) -> MarkerView {
        MarkerView { tag: self.tag@, expires_at: self.expires_at as int }
    }
}

/// What a `Database` holds.
#[verifier::ext_equal]
pub ghost struct DatabaseView {
    pub subs: Seq<Seq<char>>,
    pub subscribers: Map<Seq<char>, Seq<i64>>,
    pub markers: Map<Seq<char>, MarkerView>,
    pub queue: QueueView,
}

/// What a batch of stored names holds.
pub open spec fn str_views(s: Seq<String>) -> Seq<Seq<char>> {
    s.map_values(|x: String| x@)
}

/// No element appears twice.
pub open spec fn distinct_seq<T>(s: Seq<T>) -> bool {
    forall|a: int, b: int| 0 <= a < b < s.len() ==> s[a] != s[b]
}

/// Every stored subscriber set is free of duplicates.
pub open spec fn subscribers_wf(m: Map<Seq<char>, Seq<i64>>) -> bool {
    forall|t: Seq<char>| #[trigger] m.contains_key(t) ==> distinct_seq(m[t])
}

/// A marker for `key` exists and has not lapsed at `now`.
pub open spec fn marker_live(m: Map<Seq<char>, MarkerView>, key: Seq<char>, now: int) -> bool {
    m.contains_key(key) && m[key].expires_at > now
}

/// The subscribers of a topic: the stored set, or empty for an unknown key.
pub open spec fn topic_subs(m: Map<Seq<char>, Seq<i64>>, topic: Seq<char>) -> Seq<i64> {
    if m.contains_key(topic) {
        m[topic]
    } else {
        Seq::empty()
    }
}

/// The markers after the batch write for a poll of `subs` observed at
/// `now`: one fresh marker per item, lapsing at `now + SEEN_TTL`.
pub open spec fn write_markers(
    m: Map<Seq<char>, MarkerView>,
    subs: Seq<Submission>,
    now: int,
) -> Map<Seq<char>, MarkerView>
    decreases subs.len(),
{
    if subs.len() == 0 {
        m
    } else {
        write_markers(m, subs.drop_last(), now).insert(
            key_of(subs.last()),
            MarkerView { tag: tag_of(subs.last(), now), expires_at: now + SEEN_TTL },
        )
    }
}

/// The in-memory store.
pub struct Database {
    subs: Vec<String>,
    subscribers: StringHashMap<Vec<i64>>,
    markers: StringHashMap<Marker>,
    queue: DeliveryQueue,
}

impl View for Database {
    type V = DatabaseView;

    closed spec fn view(&self) -> DatabaseView {
        DatabaseView {
            subs: Seq::new(self.subs@.len(), |i: int| self.subs@[i]@),
            subscribers: self.subscribers@.map_values(|v: Vec<i64>| v@),
            markers: self.markers@.map_values(|m: Marker| m@),
            queue: self.queue@,
        }
    }
}

/// Whether `v` holds `id`.
fn contains_i64(v: &Vec<i64>, id: i64) -> (r: bool)
    ensures
        r == v@.contains(id),
{
    let mut i: usize = 0;
    #[verifier::loop_isolation(false)]
    while i < v.len()
        invariant
            0 <= i <= v@.len(),
            forall|k: int| 0 <= k < i ==> v@[k] != id,
        decreases v@.len() - i,
    {
        if v[i] == id {
            return true;
        }
        i = i + 1;
    }
    false
}

/// A copy of a subscriber set.
fn clone_ids(v: &Vec<i64>) -> (r: Vec<i64>)
    ensures
        r@ == v@,
{
    let mut r: Vec<i64> = Vec::new();
    let mut i: usize = 0;
    #[verifier::loop_isolation(false)]
    while i < v.len()
        invariant
            0 <= i <= v@.len(),
            r@ == v@.take(i as int),
        decreases v@.len() - i,
    {
        r.push(v[i]);
        proof {
            assert(r@ =~= v@.take(i + 1int));
        }
        i = i + 1;
    }
    proof {
        assert(v@.take(v@.len() as int) =~= v@);
    }
    r
}

impl Database {
    /// The store is a set per topic and a set of topics: no duplicates
    /// anywhere, and the queue's in-flight slots belong to distinct
    /// senders.
    pub closed spec fn wf(&self) -> bool {
        &&& distinct_seq(self@.subs)
        &&& subscribers_wf(self@.subscribers)
        &&& self.queue.wf()
    }

    /// An empty store.
    pub fn new() -> (r: Database)
        ensures
            r.wf(),
            r@.subs == Seq::<Seq<char>>::empty(),
            r@.subscribers == Map::<Seq<char>, Seq<i64>>::empty(),
            r@.markers == Map::<Seq<char>, MarkerView>::empty(),
            r@.queue.pending == Seq::<Seq<char>>::empty(),
            r@.queue.inflight == Seq::<(u64, Seq<char>)>::empty(),
    {
        let r = Database {
            subs: Vec::new(),
            subscribers: StringHashMap::new(),
            markers: StringHashMap::new(),
            queue: DeliveryQueue::new(),
        };
        proof {
            assert(r@.subs =~= Seq::<Seq<char>>::empty());
            assert(r@.subscribers =~= Map::<Seq<char>, Seq<i64>>::empty());
            assert(r@.markers =~= Map::<Seq<char>, MarkerView>::empty());
        }
        r
    }

    /// Registers a topic in the known-topics set. Topics are created out
    /// of band; the pipeline itself only reads the set.
    pub fn register_sub(&mut self, target: &String)
        requires
            old(self).wf(),
        ensures
            final(self).wf(),
            final(self)@.subs == if old(self)@.subs.contains(target@) {
                old(self)@.subs
            } else {
                old(self)@.subs.push(target@)
            },
            final(self)@.subscribers == old(self)@.subscribers,
            final(self)@.markers == old(self)@.markers,
            final(self)@.queue == old(self)@.queue,
    {
        if self.fetch_is_sub_available(target) {
            return;
        }
        self.subs.push(target.clone());
        proof {
            assert(final(self)@.subs =~= old(self)@.subs.push(target@));
            let s = final(self)@.subs;
            assert forall|a: int, b: int| 0 <= a < b < s.len() implies s[a] != s[b] by {
                if b + 1 == s.len() {
                    assert(!old(self)@.subs.contains(target@));
                    assert(old(self)@.subs[a] == s[a]);
                }
            }
        }
    }

    /// The full known-topics set: a set, so free of duplicates.
    pub fn fetch_available_subs(&self) -> (r: Vec<String>)
        ensures
            str_views(r@) == self@.subs,
            self.wf() ==> distinct_seq(self@.subs),
    {
        let mut r: Vec<String> = Vec::new();
        let mut i: usize = 0;
        #[verifier::loop_isolation(false)]
        while i < self.subs.len()
            invariant
                0 <= i <= self@.subs.len(),
                r@.len() == i,
                forall|k: int| 0 <= k < i ==> (#[trigger] r@[k])@ == self@.subs[k],
            decreases self@.subs.len() - i,
        {
            r.push(self.subs[i].clone());
            i = i + 1;
        }
        proof {
            assert(str_views(r@) =~= self@.subs);
        }
        r
    }

    /// Whether a topic is in the known-topics set.
    pub fn fetch_is_sub_available(&self, target: &String) -> (r: bool)
        ensures
            r == self@.subs.contains(target@),
    {
        let mut i: usize = 0;
        #[verifier::loop_isolation(false)]
        while i < self.subs.len()
            invariant
                0 <= i <= self@.subs.len(),
                forall|k: int| 0 <= k < i ==> self@.subs[k] != target@,
            decreases self@.subs.len() - i,
        {
            if self.subs[i] == *target {
                proof {
                    assert(self@.subs[i as int] == target@);
                }
                return true;
            }
            i = i + 1;
        }
        false
    }

    /// Adds a subscriber to a topic's set; adding one already there
    /// changes nothing.
    pub fn insert_subscriber(&mut self, target: &String, id: i64)
        requires
            old(self).wf(),
        ensures
            final(self).wf(),
            final(self)@.subscribers == if topic_subs(old(self)@.subscribers, target@).contains(id) {
                old(self)@.subscribers
            } else {
                old(self)@.subscribers.insert(
                    target@,
                    topic_subs(old(self)@.subscribers, target@).push(id),
                )
            },
            final(self)@.subs == old(self)@.subs,
            final(self)@.markers == old(self)@.markers,
            final(self)@.queue == old(self)@.queue,
    {
        let updated: Vec<i64> = match self.subscribers.get(target.as_str()) {
            Some(v) => {
                if contains_i64(v, id) {
                    return;
                }
                let mut v2 = clone_ids(v);
                v2.push(id);
                v2
            },
            None => {
                let mut v2: Vec<i64> = Vec::new();
                v2.push(id);
                proof {
                    assert(v2@ =~= topic_subs(old(self)@.subscribers, target@).push(id));
                }
                v2
            },
        };
        self.subscribers.insert(target.clone(), updated);
        proof {
            let olds = topic_subs(old(self)@.subscribers, target@);
            let news = olds.push(id);
            assert(updated@ == news);
            assert(final(self)@.subscribers =~= old(self)@.subscribers.insert(target@, news));
            assert(distinct_seq(news)) by {
                assert(!olds.contains(id));
                assert(distinct_seq(olds));
                assert forall|a: int, b: int| 0 <= a < b < news.len() implies news[a] != news[b] by {
                    if b + 1 == news.len() {
                        assert(news[a] == olds[a]);
                    }
                }
            }
            assert forall|t: Seq<char>| #[trigger]
                final(self)@.subscribers.contains_key(t) implies distinct_seq(
                final(self)@.subscribers[t],
            ) by {
                if t != target@ {
                    assert(old(self)@.subscribers.contains_key(t));
                }
            }
        }
    }

    /// Removes a subscriber from a topic's set; removing one not there
    /// changes nothing.
    pub fn delete_subscriber(&mut self, target: &String, id: i64)
        requires
            old(self).wf(),
        ensures
            final(self).wf(),
            final(self)@.subscribers == if old(self)@.subscribers.contains_key(target@) {
                old(self)@.subscribers.insert(
                    target@,
                    old(self)@.subscribers[target@].remove_value(id),
                )
            } else {
                old(self)@.subscribers
            },
            final(self)@.subs == old(self)@.subs,
            final(self)@.markers == old(self)@.markers,
            final(self)@.queue == old(self)@.queue,
    {
        let updated: Vec<i64> = match self.subscribers.get(target.as_str()) {
            Some(v) => {
                let ghost stored = v@;
                let mut j: usize = 0;
                #[verifier::loop_isolation(false)]
                while j < v.len() && v[j] != id
                    invariant
                        0 <= j <= stored.len(),
                        stored == v@,
                        forall|k: int| 0 <= k < j ==> stored[k] != id,
                    decreases stored.len() - j,
                {
                    j = j + 1;
                }
                proof {
                    stored.index_of_first_ensures(id);
                }
                if j == v.len() {
                    proof {
                        assert(!stored.contains(id));
                        assert(old(self)@.subscribers.insert(target@, stored.remove_value(id))
                            =~= old(self)@.subscribers);
                    }
                    return ;
                }
                let mut v2 = clone_ids(v);
                v2.remove(j);
                proof {
                    assert(stored.contains(id));
                    let first = stored.index_of_first(id)->Some_0;
                    assert(stored[first] == id);
                    assert(first == j as int);
                    stored.remove_ensures(j as int);
                    assert(old(self)@.subscribers.contains_key(target@));
                    assert(old(self)@.subscribers[target@] == stored);
                    assert(distinct_seq(stored));
                    assert forall|a: int, b: int| 0 <= a < b < v2@.len() implies v2@[a]
                        != v2@[b] by {
                        assert(v2@ == stored.remove(j as int));
                    }
                }
                v2
            },
            None => {
                return ;
            },
        };
        self.subscribers.insert(target.clone(), updated);
        proof {
            let olds = old(self)@.subscribers[target@];
            let news = olds.remove_value(id);
            assert(updated@ == news);
            assert(final(self)@.subscribers =~= old(self)@.subscribers.insert(target@, news));
            assert forall|t: Seq<char>| #[trigger]
                final(self)@.subscribers.contains_key(t) implies distinct_seq(
                final(self)@.subscribers[t],
            ) by {
                if t != target@ {
                    assert(old(self)@.subscribers.contains_key(t));
                }
            }
        }
    }

    /// The subscriber set of a topic: a set, so free of duplicates.
    pub fn fetch_subscribers(&self, subreddit: &String) -> (r: Vec<i64>)
        ensures
            r@ == topic_subs(self@.subscribers, subreddit@),
            self.wf() ==> distinct_seq(r@),
    {
        let r = match self.subscribers.get(subreddit.as_str()) {
            Some(v) => clone_ids(v),
            None => Vec::new(),
        };
        proof {
            if self.wf() && self@.subscribers.contains_key(subreddit@) {
                assert(distinct_seq(self@.subscribers[subreddit@]));
            }
        }
        r
    }

    /// The marker state of a batch of keys at `now`: for each key, the
    /// stored tag while a marker is live, and nothing otherwise.
    pub fn fetch_submissions_status(&self, keys: &Vec<String>, now: i64) -> (r: Vec<
        Option<String>,
    >)
        ensures
            r@.len() == keys@.len(),
            forall|i: int|
                0 <= i < keys@.len() ==> ((#[trigger] r@[i]) is None <==> !marker_live(
                    self@.markers,
                    keys@[i]@,
                    now as int,
                )),
            forall|i: int|
                0 <= i < keys@.len() && r@[i] is Some ==> (#[trigger] r@[i])->Some_0@
                    == self@.markers[keys@[i]@].tag,
    {
        let mut r: Vec<Option<String>> = Vec::new();
        let mut i: usize = 0;
        #[verifier::loop_isolation(false)]
        while i < keys.len()
            invariant
                0 <= i <= keys@.len(),
                r@.len() == i,
                forall|k: int|
                    0 <= k < i ==> ((#[trigger] r@[k]) is None <==> !marker_live(
                        self@.markers,
                        keys@[k]@,
                        now as int,
                    )),
                forall|k: int|
                    0 <= k < i && r@[k] is Some ==> (#[trigger] r@[k])->Some_0@
                        == self@.markers[keys@[k]@].tag,
            decreases keys@.len() - i,
        {
            match self.markers.get(keys[i].as_str()) {
                Some(m) => {
                    if m.expires_at > now {
                        r.push(Some(m.tag.clone()));
                    } else {
                        r.push(None);
                    }
                },
                None => {
                    r.push(None);
                },
            }
            i = i + 1;
        }
        r
    }

    /// Writes one fresh marker per item, observed at `now`, each lapsing
    /// at `now + SEEN_TTL`: twice the recency window after the write.
    pub fn update_submissions(&mut self, submissions: &Vec<Submission>, now: i64)
        requires
            old(self).wf(),
            now <= i64::MAX - SEEN_TTL,
        ensures
            final(self).wf(),
            final(self)@.markers == write_markers(old(self)@.markers, submissions@, now as int),
            final(self)@.subs == old(self)@.subs,
            final(self)@.subscribers == old(self)@.subscribers,
            final(self)@.queue == old(self)@.queue,
    {
        let mut i: usize = 0;
        #[verifier::loop_isolation(false)]
        while i < submissions.len()
            invariant
                0 <= i <= submissions@.len(),
                self@.markers == write_markers(
                    old(self)@.markers,
                    submissions@.take(i as int),
                    now as int,
                ),
                self@.subs == old(self)@.subs,
                self@.subscribers == old(self)@.subscribers,
                self@.queue == old(self)@.queue,
                self.queue.wf(),
            decreases submissions@.len() - i,
        {
            let key = submissions[i].get_key();
            let tag = submissions[i].get_tag(now);
            self.markers.insert(key, Marker { tag, expires_at: now + SEEN_TTL });
            proof {
                let pre = submissions@.take(i as int);
                let ext = submissions@.take(i + 1int);
                assert(ext.drop_last() =~= pre);
                assert(ext.last() == submissions@[i as int]);
                assert(self@.markers =~= write_markers(old(self)@.markers, ext, now as int));
            }
            i = i + 1;
        }
        proof {
            assert(submissions@.take(submissions@.len() as int) =~= submissions@);
        }
    }

    /// Appends a notification payload at the delivery queue's tail.
    pub fn queue_message(&mut self, payload: String)
        requires
            old(self).wf(),
        ensures
            final(self).wf(),
            final(self)@.queue == push_spec(old(self)@.queue, payload@),
            final(self)@.subs == old(self)@.subs,
            final(self)@.subscribers == old(self)@.subscribers,
            final(self)@.markers == old(self)@.markers,
    {
        self.queue.push(payload);
    }

    /// A sender takes the oldest pending payload into its in-flight slot.
    pub fn claim_message(&mut self, worker: u64) -> (r: Option<String>)
        requires
            old(self).wf(),
            !inflight_has(old(self)@.queue, worker),
        ensures
            final(self).wf(),
            match r {
                Some(p) => {
                    &&& old(self)@.queue.pending.len() > 0
                    &&& p@ == old(self)@.queue.pending[0]
                    &&& final(self)@.queue == claim_spec(old(self)@.queue, worker)
                },
                None => old(self)@.queue.pending.len() == 0 && final(self)@.queue == old(
                    self,
                )@.queue,
            },
            final(self)@.subs == old(self)@.subs,
            final(self)@.subscribers == old(self)@.subscribers,
            final(self)@.markers == old(self)@.markers,
    {
        self.queue.claim(worker)
    }

    /// A sender consumes its in-flight payload after a delivered send.
    pub fn ack_message(&mut self, worker: u64)
        requires
            old(self).wf(),
            inflight_has(old(self)@.queue, worker),
        ensures
            final(self).wf(),
            final(self)@.queue == ack_spec(old(self)@.queue, worker),
            final(self)@.subs == old(self)@.subs,
            final(self)@.subscribers == old(self)@.subscribers,
            final(self)@.markers == old(self)@.markers,
    {
        self.queue.ack(worker);
    }

    /// A sender puts its in-flight payload back at the pending tail
    /// after a failed send.
    pub fn requeue_message(&mut self, worker: u64)
        requires
            old(self).wf(),
            inflight_has(old(self)@.queue, worker),
        ensures
            final(self).wf(),
            final(self)@.queue == fail_spec(old(self)@.queue, worker),
            final(self)@.subs == old(self)@.subs,
            final(self)@.subscribers == old(self)@.subscribers,
            final(self)@.markers == old(self)@.markers,
    {
        self.queue.fail(worker);
    }

    /// How many payloads wait in pending.
    pub fn pending_count(&self) -> (r: usize)
        ensures
            r == self@.queue.pending.len(),
    {
        self.queue.pending_count()
    }

    /// How many payloads are in flight across all senders.
    pub fn inflight_count(&self) -> (r: usize)
        ensures
            r == self@.queue.inflight.len(),
    {
        self.queue.inflight_count()
    }
}

} // verus!
