//! One poll cycle of the update pipeline: filter the fetched items
//! through the seen-marker store and the recency window, fan the new
//! ones out to the topic's subscribers, enqueue one notification per
//! (subscriber, item) pair, and only then write the items' markers —
//! so a crash between the two steps can at worst duplicate a
//! notification, never lose one.

use vstd::prelude::*;
use crate::RECENT_OFFSET;
use crate::SEEN_TTL;
use crate::database::Database;
use crate::database::MarkerView;
use crate::database::marker_live;
use crate::database::topic_subs;
use crate::database::write_markers;
use crate::message::Message;
use crate::message::MessageView;
use crate::message::encode_message;
use crate::message::msg_enc;
use crate::reddit::Submission;
use crate::reddit::key_of;
use crate::reddit::url_of;

verus! {

/// Counts of one topic's poll cycle: items fetched and items found new.
pub struct WorkResult {
    pub results: i64,
    pub news: i64,
}

/// Whether an item passes the filter: no live marker answered for it,
/// and it was created strictly inside the recency window.
pub open spec fn keeps(sub: Submission, status: Option<String>, now: int) -> bool {
    status is None && sub.created_utc > now - (RECENT_OFFSET as int)
}

/// The items of a fetch that pass the filter, in source order: the i-th
/// status answers for the i-th item, and an item without a status is
/// dropped.
pub open spec fn filter_new(
    subs: Seq<Submission>,
    statuses: Seq<Option<String>>,
    now: int,
) -> Seq<Submission>
    decreases subs.len(),
{
    if subs.len() == 0 {
        Seq::empty()
    } else {
        let pre = filter_new(subs.drop_last(), statuses, now);
        let i = subs.len() - 1;
        if i < statuses.len() && keeps(subs[i], statuses[i], now) {
            pre.push(subs[i])
        } else {
            pre
        }
    }
}

/// Whether an item is genuinely new against a marker store at `now`.
pub open spec fn fresh(markers: Map<Seq<char>, MarkerView>, s: Submission, now: int) -> bool {
    !marker_live(markers, key_of(s), now) && s.created_utc > now - (RECENT_OFFSET as int)
}

/// The items of a fetch that are genuinely new against a marker store.
pub open spec fn news_of(
    markers: Map<Seq<char>, MarkerView>,
    subs: Seq<Submission>,
    now: int,
) -> Seq<Submission>
    decreases subs.len(),
{
    if subs.len() == 0 {
        Seq::empty()
    } else {
        let pre = news_of(markers, subs.drop_last(), now);
        if fresh(markers, subs.last(), now) {
            pre.push(subs.last())
        } else {
            pre
        }
    }
}

/// The notifications one new item produces: its link, once per subscriber.
pub open spec fn item_msgs(s: Submission, subs: Seq<i64>) -> Seq<MessageView> {
    Seq::new(subs.len(), |j: int| MessageView { target: subs[j], link: url_of(s) })
}

/// The notifications of a cycle: item-major, in source order.
pub open spec fn fanout(news: Seq<Submission>, subs: Seq<i64>) -> Seq<MessageView>
    decreases news.len(),
{
    if news.len() == 0 {
        Seq::empty()
    } else {
        fanout(news.drop_last(), subs) + item_msgs(news.last(), subs)
    }
}

/// The payload texts of a batch of notifications.
pub open spec fn payloads(ms: Seq<MessageView>) -> Seq<Seq<char>> {
    ms.map_values(|m: MessageView| msg_enc(m.target, m.link))
}

/// What a batch of notifications denotes.
pub open spec fn msg_views(ms: Seq<Message>) -> Seq<MessageView> {
    ms.map_values(|m: Message| m@)
}

/// The filter never keeps more items than were fetched.
pub proof fn lemma_filter_new_len(subs: Seq<Submission>, statuses: Seq<Option<String>>, now: int)
    ensures
        filter_new(subs, statuses, now).len() <= subs.len(),
    decreases subs.len(),
{
    if subs.len() > 0 {
        lemma_filter_new_len(subs.drop_last(), statuses, now);
    }
}

/// When each status answers for its item's marker, the filter computes
/// exactly the genuinely new items.
pub proof fn lemma_filter_matches_markers(
    markers: Map<Seq<char>, MarkerView>,
    subs: Seq<Submission>,
    statuses: Seq<Option<String>>,
    now: int,
)
    requires
        statuses.len() == subs.len(),
        forall|i: int|
            0 <= i < subs.len() ==> ((#[trigger] statuses[i]) is None <==> !marker_live(
                markers,
                key_of(subs[i]),
                now,
            )),
    ensures
        filter_new(subs, statuses, now) == news_of(markers, subs, now),
{
    lemma_filter_matches_markers_prefix(markers, subs, statuses, now);
}

/// As `lemma_filter_matches_markers`, for a prefix judged by a longer
/// status list.
proof fn lemma_filter_matches_markers_prefix(
    markers: Map<Seq<char>, MarkerView>,
    subs: Seq<Submission>,
    statuses: Seq<Option<String>>,
    now: int,
)
    requires
        subs.len() <= statuses.len(),
        forall|i: int|
            0 <= i < subs.len() ==> ((#[trigger] statuses[i]) is None <==> !marker_live(
                markers,
                key_of(subs[i]),
                now,
            )),
    ensures
        filter_new(subs, statuses, now) == news_of(markers, subs, now),
    decreases subs.len(),
{
    if subs.len() > 0 {
        let pre = subs.drop_last();
        assert(forall|i: int|
            0 <= i < pre.len() ==> ((#[trigger] statuses[i]) is None <==> !marker_live(
                markers,
                key_of(pre[i]),
                now,
            ))) by {
            assert(forall|i: int| 0 <= i < pre.len() ==> pre[i] == subs[i]);
        }
        lemma_filter_matches_markers_prefix(markers, pre, statuses, now);
        assert(subs[subs.len() - 1] == subs.last());
    }
}

/// Law: an item created at or before `now` less the recency window is
/// never among the notified items, whatever the marker store holds.
pub proof fn lemma_old_item_never_notified(
    markers: Map<Seq<char>, MarkerView>,
    subs: Seq<Submission>,
    s: Submission,
    now: int,
)
    requires
        s.created_utc <= now - (RECENT_OFFSET as int),
    ensures
        !news_of(markers, subs, now).contains(s),
    decreases subs.len(),
{
    if subs.len() > 0 {
        lemma_old_item_never_notified(markers, subs.drop_last(), s, now);
        let all = news_of(markers, subs, now);
        let pre = news_of(markers, subs.drop_last(), now);
        if fresh(markers, subs.last(), now) {
            assert(all == pre.push(subs.last()));
            assert forall|i: int| 0 <= i < all.len() implies all[i] != s by {
                if i < pre.len() {
                    assert(!pre.contains(s));
                }
            }
        }
    }
}

/// Law: an item whose seen-marker is still live at `now` is never among
/// the notified items: polling it again within the marker's span
/// produces no duplicate notification.
pub proof fn lemma_seen_item_never_notified(
    markers: Map<Seq<char>, MarkerView>,
    subs: Seq<Submission>,
    s: Submission,
    now: int,
)
    requires
        marker_live(markers, key_of(s), now),
    ensures
        !news_of(markers, subs, now).contains(s),
    decreases subs.len(),
{
    if subs.len() > 0 {
        lemma_seen_item_never_notified(markers, subs.drop_last(), s, now);
        let all = news_of(markers, subs, now);
        let pre = news_of(markers, subs.drop_last(), now);
        if fresh(markers, subs.last(), now) {
            assert(all == pre.push(subs.last()));
            assert forall|i: int| 0 <= i < all.len() implies all[i] != s by {
                if i < pre.len() {
                    assert(!pre.contains(s));
                }
            }
        }
    }
}

/// Law: a marker written by a cycle observed at `now` lapses exactly
/// `SEEN_TTL` — twice the recency window — after `now`; markers the
/// cycle did not write are untouched.
pub proof fn lemma_marker_ttl(
    markers: Map<Seq<char>, MarkerView>,
    subs: Seq<Submission>,
    now: int,
)
    ensures
        forall|i: int|
            0 <= i < subs.len() ==> write_markers(markers, subs, now).contains_key(
                key_of(#[trigger] subs[i]),
            ) && write_markers(markers, subs, now)[key_of(subs[i])].expires_at == now + (
            SEEN_TTL as int),
        forall|k: Seq<char>|
            write_markers(markers, subs, now).contains_key(k) ==> (markers.contains_key(k)
                && #[trigger] write_markers(markers, subs, now)[k] == markers[k]) || write_markers(
                markers,
                subs,
                now,
            )[k].expires_at == now + (SEEN_TTL as int),
    decreases subs.len(),
{
    if subs.len() > 0 {
        lemma_marker_ttl(markers, subs.drop_last(), now);
        let pre = subs.drop_last();
        let before = write_markers(markers, pre, now);
        let after = write_markers(markers, subs, now);
        let lastkey = key_of(subs.last());
        assert(forall|i: int| 0 <= i < subs.len() - 1 ==> pre[i] == subs[i]);
        assert forall|i: int| 0 <= i < subs.len() implies after.contains_key(
            key_of(#[trigger] subs[i]),
        ) && after[key_of(subs[i])].expires_at == now + (SEEN_TTL as int) by {
            if i < subs.len() - 1 {
                assert(before.contains_key(key_of(pre[i])));
                if key_of(subs[i]) != lastkey {
                    assert(after[key_of(subs[i])] == before[key_of(subs[i])]);
                }
            } else {
                assert(subs[i] == subs.last());
            }
        }
        assert forall|k: Seq<char>| after.contains_key(k) implies (markers.contains_key(k)
            && #[trigger] after[k] == markers[k]) || after[k].expires_at == now + (
        SEEN_TTL as int) by {
            if k != lastkey {
                assert(before.contains_key(k));
                assert(after[k] == before[k]);
            }
        }
    }
}

/// Law: the notifications of a cycle are exactly one per (new item,
/// subscriber) pair, each carrying that item's link.
pub proof fn lemma_fanout_membership(news: Seq<Submission>, subs: Seq<i64>, m: MessageView)
    ensures
        fanout(news, subs).contains(m) <==> exists|i: int, j: int|
            #![trigger news[i], subs[j]]
            0 <= i < news.len() && 0 <= j < subs.len() && m == (MessageView {
                target: subs[j],
                link: url_of(news[i]),
            }),
    decreases news.len(),
{
    if news.len() == 0 {
    } else {
        let pre = news.drop_last();
        lemma_fanout_membership(pre, subs, m);
        let all = fanout(news, subs);
        let tail = item_msgs(news.last(), subs);
        if fanout(pre, subs).contains(m) {
            let i = choose|i: int| 0 <= i < all.len() - tail.len() && fanout(pre, subs)[i] == m;
            assert(all[i] == m);
            let (a, b): (int, int) = choose|a: int, b: int|
                #![trigger pre[a], subs[b]]
                0 <= a < pre.len() && 0 <= b < subs.len() && m == (MessageView {
                    target: subs[b],
                    link: url_of(pre[a]),
                });
            assert(news[a] == pre[a]);
        } else if tail.contains(m) {
            let j = choose|j: int| 0 <= j < tail.len() && tail[j] == m;
            assert(all[fanout(pre, subs).len() + j] == m);
            assert(news[news.len() - 1] == news.last());
        }
        if exists|i: int, j: int|
            #![trigger news[i], subs[j]]
            0 <= i < news.len() && 0 <= j < subs.len() && m == (MessageView {
                target: subs[j],
                link: url_of(news[i]),
            }) {
            let (i, j): (int, int) = choose|i: int, j: int|
                #![trigger news[i], subs[j]]
                0 <= i < news.len() && 0 <= j < subs.len() && m == (MessageView {
                    target: subs[j],
                    link: url_of(news[i]),
                });
            if i < news.len() - 1 {
                assert(pre[i] == news[i]);
                assert(fanout(pre, subs).contains(m));
                let k = choose|k: int| 0 <= k < fanout(pre, subs).len() && fanout(pre, subs)[k] == m;
                assert(all[k] == m);
                assert(all.contains(m));
            } else {
                assert(tail[j] == m);
                assert(all[fanout(pre, subs).len() + j] == m);
                assert(all.contains(m));
            }
        }
    }
}

/// Filters the fetched items: the i-th status answers for the i-th
/// item, and only unmarked items inside the recency window pass.
pub fn filter_new_submissions(
    values: &Vec<Option<String>>,
    submissions: Vec<Submission>,
    now: i64,
) -> (r: Vec<Submission>)
    ensures
        r@ == filter_new(submissions@, values@, now as int),
{
    let ghost all = submissions@;
    let n = submissions.len();
    let mut rest = submissions;
    let mut r: Vec<Submission> = Vec::new();
    let mut i: usize = 0;
    #[verifier::loop_isolation(false)]
    while rest.len() > 0
        invariant
            0 <= i <= all.len(),
            i + rest@.len() == n,
            n == all.len(),
            rest@ == all.subrange(i as int, all.len() as int),
            r@ == filter_new(all.take(i as int), values@, now as int),
        decreases rest@.len(),
    {
        let s = rest.remove(0);
        proof {
            assert(s == all[i as int]);
            assert(rest@ =~= all.subrange(i + 1int, all.len() as int));
            let pre = all.take(i as int);
            let ext = all.take(i + 1int);
            assert(ext.drop_last() =~= pre);
            assert(ext.last() == all[i as int]);
        }
        let young = (s.created_utc as i128) > (now as i128) - (RECENT_OFFSET as i128);
        if i < values.len() && values[i].is_none() && young {
            r.push(s);
        }
        i = i + 1;
    }
    proof {
        assert(all.take(all.len() as int) =~= all);
    }
    r
}

/// Builds the cycle's notifications: every subscriber of the topic gets
/// each new item's link, item-major in source order.
pub fn fan_out(news: &Vec<Submission>, subscribers: &Vec<i64>) -> (r: Vec<Message>)
    ensures
        msg_views(r@) == fanout(news@, subscribers@),
{
    let mut r: Vec<Message> = Vec::new();
    let mut i: usize = 0;
    #[verifier::loop_isolation(false)]
    while i < news.len()
        invariant
            0 <= i <= news@.len(),
            msg_views(r@) == fanout(news@.take(i as int), subscribers@),
        decreases news@.len() - i,
    {
        let mut j: usize = 0;
        #[verifier::loop_isolation(false)]
        while j < subscribers.len()
            invariant
                0 <= i < news@.len(),
                0 <= j <= subscribers@.len(),
                msg_views(r@) == fanout(news@.take(i as int), subscribers@) + item_msgs(
                    news@[i as int],
                    subscribers@,
                ).take(j as int),
            decreases subscribers@.len() - j,
        {
            let link = news[i].get_url();
            let m = Message { target: subscribers[j], link };
            let ghost seen = r@;
            r.push(m);
            proof {
                let a = fanout(news@.take(i as int), subscribers@);
                let b = item_msgs(news@[i as int], subscribers@);
                let goal = a + b.take(j + 1int);
                assert(r@ == seen.push(m));
                assert(msg_views(r@).len() == seen.len() + 1);
                assert(goal.len() == a.len() + j + 1);
                assert forall|t: int| 0 <= t < msg_views(r@).len() implies msg_views(r@)[t]
                    == goal[t] by {
                    if t < seen.len() {
                        assert(msg_views(r@)[t] == seen[t]@);
                        assert(msg_views(seen)[t] == seen[t]@);
                        assert(msg_views(seen)[t] == (a + b.take(j as int))[t]);
                        if t < a.len() {
                            assert(goal[t] == a[t]);
                        } else {
                            assert(goal[t] == b[t - a.len()]);
                        }
                    } else {
                        assert(msg_views(r@)[t] == m@);
                        assert(goal[t] == b[j as int]);
                        assert(b[j as int] == (MessageView {
                            target: subscribers@[j as int],
                            link: url_of(news@[i as int]),
                        }));
                    }
                }
                assert(msg_views(r@) =~= goal);
            }
            j = j + 1;
        }
        proof {
            let pre = news@.take(i as int);
            let ext = news@.take(i + 1int);
            assert(ext.drop_last() =~= pre);
            assert(ext.last() == news@[i as int]);
            assert(item_msgs(news@[i as int], subscribers@).take(subscribers@.len() as int)
                =~= item_msgs(news@[i as int], subscribers@));
            assert(msg_views(r@) == fanout(ext, subscribers@));
        }
        i = i + 1;
    }
    proof {
        assert(news@.take(news@.len() as int) =~= news@);
    }
    r
}

/// One topic's poll cycle against the store: read the fetched items'
/// marker state, filter, fan out to the topic's subscribers, enqueue
/// every notification, and then — and only then — write the markers.
pub fn handle_update(
    db: &mut Database,
    subreddit: &String,
    submissions: Vec<Submission>,
    now: i64,
) -> (r: WorkResult)
    requires
        old(db).wf(),
        now <= i64::MAX - SEEN_TTL,
        submissions@.len() <= i64::MAX,
    ensures
        final(db).wf(),
        final(db)@.subs == old(db)@.subs,
        final(db)@.subscribers == old(db)@.subscribers,
        final(db)@.queue.inflight == old(db)@.queue.inflight,
        final(db)@.queue.pending == old(db)@.queue.pending + payloads(
            fanout(
                news_of(old(db)@.markers, submissions@, now as int),
                topic_subs(old(db)@.subscribers, subreddit@),
            ),
        ),
        final(db)@.markers == write_markers(
            old(db)@.markers,
            news_of(old(db)@.markers, submissions@, now as int),
            now as int,
        ),
        r.results as int == submissions@.len(),
        r.news as int == news_of(old(db)@.markers, submissions@, now as int).len(),
{
    let ghost subs_v = submissions@;
    let ghost spec_news = news_of(old(db)@.markers, submissions@, now as int);
    let results = submissions.len();
    let mut keys: Vec<String> = Vec::new();
    let mut i: usize = 0;
    #[verifier::loop_isolation(false)]
    while i < submissions.len()
        invariant
            0 <= i <= submissions@.len(),
            keys@.len() == i,
            forall|k: int| 0 <= k < i ==> (#[trigger] keys@[k])@ == key_of(submissions@[k]),
        decreases submissions@.len() - i,
    {
        keys.push(submissions[i].get_key());
        i = i + 1;
    }
    let statuses = db.fetch_submissions_status(&keys, now);
    let news = filter_new_submissions(&statuses, submissions, now);
    proof {
        assert(forall|i: int|
            0 <= i < subs_v.len() ==> ((#[trigger] statuses@[i]) is None <==> !marker_live(
                old(db)@.markers,
                key_of(subs_v[i]),
                now as int,
            ))) by {
            assert(forall|i: int|
                0 <= i < subs_v.len() ==> (#[trigger] keys@[i])@ == key_of(subs_v[i]));
        }
        lemma_filter_matches_markers(old(db)@.markers, subs_v, statuses@, now as int);
        assert(news@ == spec_news);
    }
    let subscribers = db.fetch_subscribers(subreddit);
    let msgs = fan_out(&news, &subscribers);
    let mut k: usize = 0;
    #[verifier::loop_isolation(false)]
    while k < msgs.len()
        invariant
            0 <= k <= msgs@.len(),
            db.wf(),
            db@.subs == old(db)@.subs,
            db@.subscribers == old(db)@.subscribers,
            db@.markers == old(db)@.markers,
            db@.queue.inflight == old(db)@.queue.inflight,
            db@.queue.pending == old(db)@.queue.pending + payloads(
                msg_views(msgs@).take(k as int),
            ),
        decreases msgs@.len() - k,
    {
        let payload = encode_message(&msgs[k]);
        db.queue_message(payload);
        proof {
            assert(payloads(msg_views(msgs@).take(k + 1int)).drop_last() =~= payloads(
                msg_views(msgs@).take(k as int),
            ));
            assert(db@.queue.pending =~= old(db)@.queue.pending + payloads(
                msg_views(msgs@).take(k + 1int),
            ));
        }
        k = k + 1;
    }
    proof {
        assert(msg_views(msgs@).take(msgs@.len() as int) =~= msg_views(msgs@));
    }
    db.update_submissions(&news, now);
    proof {
        lemma_filter_new_len(subs_v, statuses@, now as int);
    }
    WorkResult { results: results as i64, news: news.len() as i64 }
}

} // verus!
