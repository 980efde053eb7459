use rredditr::RECENT_OFFSET;
use rredditr::database::Database;
use rredditr::message::decode_message;
use rredditr::reddit::Submission;
use rredditr::worker::fan_out;
use rredditr::worker::filter_new_submissions;
use rredditr::worker::handle_update;

fn item(id: &str, topic: &str, permalink: &str, created_utc: i64) -> Submission {
    Submission {
        id: id.to_string(),
        subreddit: topic.to_string(),
        title: format!("title of {}", id),
        permalink: permalink.to_string(),
        created_utc,
    }
}

#[test]
fn one_new_item_notifies_every_subscriber() {
    let mut db = Database::new();
    let topic = "news".to_string();
    db.register_sub(&topic);
    db.insert_subscriber(&topic, 10);
    db.insert_subscriber(&topic, 20);
    let now: i64 = 1_000_000;
    let subs = vec![item("abc", "news", "/r/news/abc", now)];
    let r = handle_update(&mut db, &topic, subs, now);
    assert_eq!(r.results, 1);
    assert_eq!(r.news, 1);
    assert_eq!(db.pending_count(), 2);

    let first_payload = db.claim_message(1).unwrap();
    let first_msg = decode_message(&first_payload).unwrap();
    assert_eq!(first_msg.target, 10);
    assert_eq!(first_msg.link, "https://www.reddit.com/r/news/abc");
    db.ack_message(1);

    let second_payload = db.claim_message(1).unwrap();
    let second_msg = decode_message(&second_payload).unwrap();
    assert_eq!(second_msg.target, 20);
    assert_eq!(second_msg.link, "https://www.reddit.com/r/news/abc");
    db.ack_message(1);

    let status = db.fetch_submissions_status(&vec!["posts/abc".to_string()], now);
    assert!(status[0].is_some());
}

#[test]
fn second_cycle_within_ttl_notifies_nothing() {
    let mut db = Database::new();
    let topic = "news".to_string();
    db.register_sub(&topic);
    db.insert_subscriber(&topic, 10);
    db.insert_subscriber(&topic, 20);
    let now: i64 = 1_000_000;
    let first = handle_update(&mut db, &topic, vec![item("abc", "news", "/r/news/abc", now)], now);
    assert_eq!(first.news, 1);
    let later = now + 60;
    let second = handle_update(
        &mut db,
        &topic,
        vec![item("abc", "news", "/r/news/abc", now)],
        later,
    );
    assert_eq!(second.results, 1);
    assert_eq!(second.news, 0);
    assert_eq!(db.pending_count(), 2);
}

#[test]
fn marker_lapses_after_twice_the_window() {
    let mut db = Database::new();
    let topic = "news".to_string();
    db.register_sub(&topic);
    db.insert_subscriber(&topic, 10);
    let now: i64 = 1_000_000;
    handle_update(&mut db, &topic, vec![item("abc", "news", "/r/news/abc", now)], now);
    let key = vec!["posts/abc".to_string()];
    assert!(db.fetch_submissions_status(&key, now + 2 * RECENT_OFFSET - 1)[0].is_some());
    assert!(db.fetch_submissions_status(&key, now + 2 * RECENT_OFFSET)[0].is_none());
}

#[test]
fn old_item_gets_no_notification_and_no_marker() {
    let mut db = Database::new();
    let topic = "news".to_string();
    db.register_sub(&topic);
    db.insert_subscriber(&topic, 10);
    let now: i64 = 1_000_000;
    let old = item("old", "news", "/r/news/old", now - RECENT_OFFSET - 1);
    let r = handle_update(&mut db, &topic, vec![old], now);
    assert_eq!(r.results, 1);
    assert_eq!(r.news, 0);
    assert_eq!(db.pending_count(), 0);
    let status = db.fetch_submissions_status(&vec!["posts/old".to_string()], now);
    assert!(status[0].is_none());
}

#[test]
fn window_boundary_is_strict() {
    let mut db = Database::new();
    let topic = "news".to_string();
    db.register_sub(&topic);
    db.insert_subscriber(&topic, 10);
    let now: i64 = 1_000_000;
    let at_edge = item("edge", "news", "/r/news/edge", now - RECENT_OFFSET);
    let just_in = item("in", "news", "/r/news/in", now - RECENT_OFFSET + 1);
    let r = handle_update(&mut db, &topic, vec![at_edge, just_in], now);
    assert_eq!(r.news, 1);
    assert_eq!(db.pending_count(), 1);
    let p = db.claim_message(1).unwrap();
    let m = decode_message(&p).unwrap();
    assert_eq!(m.link, "https://www.reddit.com/r/news/in");
}

#[test]
fn topic_without_subscribers_notifies_nobody_but_marks() {
    let mut db = Database::new();
    let topic = "quiet".to_string();
    db.register_sub(&topic);
    let now: i64 = 1_000_000;
    let r = handle_update(&mut db, &topic, vec![item("q", "quiet", "/r/quiet/q", now)], now);
    assert_eq!(r.news, 1);
    assert_eq!(db.pending_count(), 0);
    let status = db.fetch_submissions_status(&vec!["posts/q".to_string()], now);
    assert!(status[0].is_some());
}

#[test]
fn filter_pairs_statuses_with_items_by_position() {
    let now: i64 = 1_000_000;
    let a = item("a", "t", "/a", now);
    let b = item("b", "t", "/b", now);
    let c = item("c", "t", "/c", now);
    let statuses = vec![None, Some("1:2".to_string())];
    let kept = filter_new_submissions(&statuses, vec![a, b, c], now);
    // b is marked; c has no status at all and is dropped defensively.
    assert_eq!(kept.len(), 1);
    assert_eq!(kept[0].id, "a");
}

#[test]
fn fan_out_is_item_major_in_source_order() {
    let now: i64 = 1_000_000;
    let first = item("one", "t", "/one", now);
    let second = item("two", "t", "/two", now);
    let msgs = fan_out(&vec![first, second], &vec![10, 20]);
    assert_eq!(msgs.len(), 4);
    assert_eq!(msgs[0].target, 10);
    assert_eq!(msgs[0].link, "https://www.reddit.com/one");
    assert_eq!(msgs[1].target, 20);
    assert_eq!(msgs[1].link, "https://www.reddit.com/one");
    assert_eq!(msgs[2].target, 10);
    assert_eq!(msgs[2].link, "https://www.reddit.com/two");
    assert_eq!(msgs[3].target, 20);
    assert_eq!(msgs[3].link, "https://www.reddit.com/two");
}

#[test]
fn duplicate_ids_in_one_fetch_notify_once_each() {
    let mut db = Database::new();
    let topic = "news".to_string();
    db.register_sub(&topic);
    db.insert_subscriber(&topic, 10);
    let now: i64 = 1_000_000;
    let twice = vec![
        item("dup", "news", "/r/news/dup", now),
        item("dup", "news", "/r/news/dup", now),
    ];
    // Both copies pass the filter: the marker is written only after the
    // cycle, so a duplicate within one fetch duplicates the notification
    // (at-least-once is the contract; silent loss is what is excluded).
    let r = handle_update(&mut db, &topic, twice, now);
    assert_eq!(r.news, 2);
    assert_eq!(db.pending_count(), 2);
}
