//! The chat commands against the subscription store: subscribe to a
//! topic, leave it, and list the known topics. Each handler changes the
//! store and returns the reply text; carrying the reply to the chat
//! endpoint is the caller's business.

use vstd::prelude::*;
use vstd::string::StringExecFns;
use crate::database::Database;
use crate::database::str_views;
use crate::database::topic_subs;

verus! {

/// The reply to a subscribe command: acceptance when the topic is known,
/// a refusal otherwise.
pub open spec fn subscribe_reply(available: bool, target: Seq<char>) -> Seq<char> {
    if available {
        "You are now subscribed to "@ + target
    } else {
        "The subreddit "@ + target + " is not available"@
    }
}

/// The reply to an unsubscribe command.
pub open spec fn unsubscribe_reply(target: Seq<char>) -> Seq<char> {
    "You are no longer subscribed to "@ + target
}

/// One listing line per known topic.
pub open spec fn available_lines(subs: Seq<Seq<char>>) -> Seq<char>
    decreases subs.len(),
{
    if subs.len() == 0 {
        Seq::empty()
    } else {
        available_lines(subs.drop_last()) + "- "@ + subs.last() + "\n"@
    }
}

/// The reply to a listing command: a header, then one line per topic.
pub open spec fn available_reply(subs: Seq<Seq<char>>) -> Seq<char> {
    "These are the available subreddits:\n"@ + available_lines(subs)
}

/// Renders the reply to a subscribe command.
pub fn subscribe_reply_text(available: bool, target: &str) -> (r: String)
    ensures
        r@ == subscribe_reply(available, target@),
{
    if available {
        let mut s = "You are now subscribed to ".to_owned();
        s.append(target);
        s
    } else {
        let mut s = "The subreddit ".to_owned();
        s.append(target);
        s.append(" is not available");
        s
    }
}

/// Renders the reply to an unsubscribe command.
pub fn unsubscribe_reply_text(target: &str) -> (r: String)
    ensures
        r@ == unsubscribe_reply(target@),
{
    let mut s = "You are no longer subscribed to ".to_owned();
    s.append(target);
    s
}

/// Renders the topic listing reply.
pub fn available_reply_text(subs: &Vec<String>) -> (r: String)
    ensures
        r@ == available_reply(str_views(subs@)),
{
    let mut s = "These are the available subreddits:\n".to_owned();
    let mut i: usize = 0;
    #[verifier::loop_isolation(false)]
    while i < subs.len()
        invariant
            0 <= i <= subs@.len(),
            s@ == "These are the available subreddits:\n"@ + available_lines(
                str_views(subs@).take(i as int),
            ),
        decreases subs@.len() - i,
    {
        s.append("- ");
        s.append(subs[i].as_str());
        s.append("\n");
        proof {
            let pre = str_views(subs@).take(i as int);
            let ext = str_views(subs@).take(i + 1int);
            assert(ext.drop_last() =~= pre);
            assert(ext.last() == subs@[i as int]@);
            assert(s@ =~= "These are the available subreddits:\n"@ + available_lines(ext));
        }
        i = i + 1;
    }
    proof {
        assert(str_views(subs@).take(subs@.len() as int) =~= str_views(subs@));
    }
    s
}

/// Subscribes a recipient to a topic when the topic is known; an unknown
/// topic changes nothing. Returns the reply for the recipient.
pub fn handle_subscribe(db: &mut Database, target: &String, chat: i64) -> (r: String)
    requires
        old(db).wf(),
    ensures
        final(db).wf(),
        r@ == subscribe_reply(old(db)@.subs.contains(target@), target@),
        final(db)@.subscribers == if !old(db)@.subs.contains(target@) || topic_subs(
            old(db)@.subscribers,
            target@,
        ).contains(chat) {
            old(db)@.subscribers
        } else {
            old(db)@.subscribers.insert(
                target@,
                topic_subs(old(db)@.subscribers, target@).push(chat),
            )
        },
        final(db)@.subs == old(db)@.subs,
        final(db)@.markers == old(db)@.markers,
        final(db)@.queue == old(db)@.queue,
{
    let available = db.fetch_is_sub_available(target);
    if available {
        db.insert_subscriber(target, chat);
    }
    subscribe_reply_text(available, target.as_str())
}

/// Removes a recipient from a topic's set; one not subscribed is left
/// as found. Returns the reply for the recipient.
pub fn handle_unsubscribe(db: &mut Database, target: &String, chat: i64) -> (r: String)
    requires
        old(db).wf(),
    ensures
        final(db).wf(),
        r@ == unsubscribe_reply(target@),
        final(db)@.subscribers == if old(db)@.subscribers.contains_key(target@) {
            old(db)@.subscribers.insert(
                target@,
                old(db)@.subscribers[target@].remove_value(chat),
            )
        } else {
            old(db)@.subscribers
        },
        final(db)@.subs == old(db)@.subs,
        final(db)@.markers == old(db)@.markers,
        final(db)@.queue == old(db)@.queue,
{
    db.delete_subscriber(target, chat);
    unsubscribe_reply_text(target.as_str())
}

/// Lists the known topics, one line each under a header.
pub fn handle_available(db: &Database) -> (r: String)
    ensures
        r@ == available_reply(db@.subs),
{
    let subs = db.fetch_available_subs();
    proof {
        assert(str_views(subs@) =~= db@.subs);
    }
    available_reply_text(&subs)
}

} // verus!
