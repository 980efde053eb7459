use rredditr::commands::handle_available;
use rredditr::commands::handle_subscribe;
use rredditr::commands::handle_unsubscribe;
use rredditr::database::Database;

#[test]
fn subscribing_to_a_known_topic_is_accepted() {
    let mut db = Database::new();
    let topic = "news".to_string();
    db.register_sub(&topic);
    let reply = handle_subscribe(&mut db, &topic, 10);
    assert_eq!(reply, "You are now subscribed to news");
    assert_eq!(db.fetch_subscribers(&topic), vec![10]);
}

#[test]
fn subscribing_to_an_unknown_topic_is_refused() {
    let mut db = Database::new();
    let topic = "nowhere".to_string();
    let reply = handle_subscribe(&mut db, &topic, 10);
    assert_eq!(reply, "The subreddit nowhere is not available");
    assert!(db.fetch_subscribers(&topic).is_empty());
}

#[test]
fn subscribing_twice_stores_one_entry() {
    let mut db = Database::new();
    let topic = "news".to_string();
    db.register_sub(&topic);
    handle_subscribe(&mut db, &topic, 10);
    handle_subscribe(&mut db, &topic, 10);
    assert_eq!(db.fetch_subscribers(&topic), vec![10]);
}

#[test]
fn unsubscribing_removes_only_that_recipient() {
    let mut db = Database::new();
    let topic = "news".to_string();
    db.register_sub(&topic);
    db.insert_subscriber(&topic, 10);
    db.insert_subscriber(&topic, 20);
    let reply = handle_unsubscribe(&mut db, &topic, 10);
    assert_eq!(reply, "You are no longer subscribed to news");
    assert_eq!(db.fetch_subscribers(&topic), vec![20]);
}

#[test]
fn unsubscribing_when_not_subscribed_changes_nothing() {
    let mut db = Database::new();
    let topic = "news".to_string();
    db.register_sub(&topic);
    db.insert_subscriber(&topic, 20);
    handle_unsubscribe(&mut db, &topic, 10);
    assert_eq!(db.fetch_subscribers(&topic), vec![20]);
}

#[test]
fn listing_names_every_known_topic() {
    let mut db = Database::new();
    db.register_sub(&"alpha".to_string());
    db.register_sub(&"beta".to_string());
    db.register_sub(&"alpha".to_string());
    let reply = handle_available(&db);
    assert_eq!(reply, "These are the available subreddits:\n- alpha\n- beta\n");
}

#[test]
fn registration_and_membership_agree() {
    let mut db = Database::new();
    assert!(!db.fetch_is_sub_available(&"x".to_string()));
    db.register_sub(&"x".to_string());
    assert!(db.fetch_is_sub_available(&"x".to_string()));
    let names = db.fetch_available_subs();
    assert_eq!(names, vec!["x".to_string()]);
}

#[test]
fn reply_texts_are_the_handlers_texts() {
    assert_eq!(
        rredditr::commands::subscribe_reply_text(true, "news"),
        "You are now subscribed to news"
    );
    assert_eq!(
        rredditr::commands::subscribe_reply_text(false, "news"),
        "The subreddit news is not available"
    );
    assert_eq!(
        rredditr::commands::unsubscribe_reply_text("news"),
        "You are no longer subscribed to news"
    );
    let names = vec!["alpha".to_string(), "beta".to_string()];
    assert_eq!(
        rredditr::commands::available_reply_text(&names),
        "These are the available subreddits:\n- alpha\n- beta\n"
    );
}
