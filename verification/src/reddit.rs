//! Items of the content source: the feed endpoint for a topic, the item
//! record, its dedup-store key, its marker tag and its delivery link, and
//! the defensive decoding of the feed's JSON into item records.

use vstd::prelude::*;
use vstd::string::StringExecFns;
use crate::text::int_rep;
use crate::text::render_i64;

verus! {

/// One item fetched from the content source. The creation time is held
/// in whole seconds since the epoch.
pub struct Submission {
    pub id: String,
    pub subreddit: String,
    pub title: String,
    pub permalink: String,
    pub created_utc: i64,
}

/// The dedup-store key for an item.
pub open spec fn key_of(s: Submission) -> Seq<char> {
    "posts/"@ + s.id@
}

/// The marker tag for an item: creation time, a colon, observation time.
pub open spec fn tag_of(s: Submission, now: int) -> Seq<char> {
    int_rep(s.created_utc as int) + seq![':'] + int_rep(now)
}

/// The link a notification for an item carries.
pub open spec fn url_of(s: Submission) -> Seq<char> {
    "https://www.reddit.com"@ + s.permalink@
}

/// The feed endpoint for a topic.
pub open spec fn feed_url_of(topic: Seq<char>) -> Seq<char> {
    "https://api.reddit.com/r/"@ + topic + "/new.json"@
}

impl Submission {
    /// The dedup-store key for this item.
    pub fn get_key(&self) -> (r: String)
        ensures
            r@ == key_of(*self),
    {
        let mut s = "posts/".to_owned();
        s.append(self.id.as_str());
        s
    }

    /// The marker tag for this item, observed at `now`.
    pub fn get_tag(&self, now: i64) -> (r: String)
        ensures
            r@ == tag_of(*self, now as int),
    {
        let mut s = render_i64(self.created_utc);
        s.append(":");
        let rendered_now = render_i64(now);
        s.append(rendered_now.as_str());
        proof {
            reveal_strlit(":");
            assert(s@ =~= tag_of(*self, now as int));
        }
        s
    }

    /// The link a notification for this item carries.
    pub fn get_url(&self) -> (r: String)
        ensures
            r@ == url_of(*self),
    {
        let mut s = "https://www.reddit.com".to_owned();
        s.append(self.permalink.as_str());
        s
    }
}

/// The feed endpoint for a topic.
pub fn feed_url(topic: &str) -> (r: String)
    ensures
        r@ == feed_url_of(topic@),
{
    let mut s = "https://api.reddit.com/r/".to_owned();
    s.append(topic);
    s.append("/new.json");
    s
}

#[verifier::external_type_specification]
#[verifier::external_body]
pub struct ExValue(serde_json::Value);

/// The tree a JSON value holds, as far as the pipeline reads it: a
/// number is kept as the whole seconds the decoder takes from it.
pub ghost enum JsonRep {
    Null,
    Bool(bool),
    Num(int),
    Str(Seq<char>),
    Arr(Seq<JsonRep>),
    Obj(Map<Seq<char>, JsonRep>),
}

/// The tree a parsed JSON value holds.
pub uninterp spec fn json_rep_of(v: serde_json::Value) -> JsonRep;

/// The tree the JSON parser reads from a piece of text, or nothing when
/// it refuses the text.
pub uninterp spec fn parsed_json_of(s: Seq<char>) -> Option<JsonRep>;

/// Relies on serde_json::from_str: parses JSON text into a value tree,
/// and fails exactly on text the parser refuses (malformed, or nested
/// beyond its fixed recursion limit) — the same texts on every machine.
#[verifier::external_body]
fn parse_json(text: &str) -> (r: Option<serde_json::Value>)
    ensures
        match r {
            Some(v) => parsed_json_of(text@) == Some(json_rep_of(v)),
            None => parsed_json_of(text@) is None,
        },
{
    serde_json::from_str(text).ok()
}

/// Relies on serde_json::Value::get with a string index: the named field
/// of a JSON object; `None` when `v` is no object or has no such field.
#[verifier::external_body]
fn json_get<'a>(v: &'a serde_json::Value, key: &str) -> (r: Option<&'a serde_json::Value>)
    ensures
        match r {
            Some(f) => json_rep_of(*v) matches JsonRep::Obj(m) && m.contains_key(key@)
                && json_rep_of(*f) == m[key@],
            None => !(json_rep_of(*v) matches JsonRep::Obj(m) && m.contains_key(key@)),
        },
{
    v.get(key)
}

/// Relies on serde_json::Value::as_array: the elements of a JSON array;
/// `None` when `v` is no array.
#[verifier::external_body]
fn json_as_array(v: &serde_json::Value) -> (r: Option<&Vec<serde_json::Value>>)
    ensures
        match r {
            Some(items) => json_rep_of(*v) matches JsonRep::Arr(a) && a.len() == items@.len()
                && (forall|i: int| 0 <= i < a.len() ==> json_rep_of(#[trigger] items@[i]) == a[i]),
            None => !(json_rep_of(*v) is Arr),
        },
{
    v.as_array()
}

/// Relies on serde_json::Value::as_str: the text of a JSON string;
/// `None` when `v` is no string.
#[verifier::external_body]
fn json_as_str(v: &serde_json::Value) -> (r: Option<&str>)
    ensures
        match r {
            Some(s) => json_rep_of(*v) == JsonRep::Str(s@),
            None => !(json_rep_of(*v) is Str),
        },
{
    v.as_str()
}

/// Relies on serde_json::Value::as_f64, which answers for every JSON
/// number: the number as whole seconds (truncated, saturated to i64);
/// `None` when `v` is no number.
#[verifier::external_body]
fn json_number_seconds(v: &serde_json::Value) -> (r: Option<i64>)
    ensures
        match r {
            Some(n) => json_rep_of(*v) == JsonRep::Num(n as int),
            None => !(json_rep_of(*v) is Num),
        },
{
    v.as_f64().map(|secs| secs as i64)
}

/// What one decoded item record holds.
#[verifier::ext_equal]
pub ghost struct SubmissionView {
    pub id: Seq<char>,
    pub subreddit: Seq<char>,
    pub title: Seq<char>,
    pub permalink: Seq<char>,
    pub created_utc: int,
}

impl View for Submission {
    type V = SubmissionView;

    open spec fn view(&self) -> SubmissionView {
        SubmissionView {
            id: self.id@,
            subreddit: self.subreddit@,
            title: self.title@,
            permalink: self.permalink@,
            created_utc: self.created_utc as int,
        }
    }
}

/// What a batch of item records holds.
pub open spec fn sub_views(s: Seq<Submission>) -> Seq<SubmissionView> {
    s.map_values(|x: Submission| x@)
}

/// The item an entry's record denotes: all five fields must be there,
/// each of its kind.
pub open spec fn record_rep(record: JsonRep) -> Option<SubmissionView> {
    match record {
        JsonRep::Obj(m) => if m.contains_key("id"@) && m.contains_key("subreddit"@)
            && m.contains_key("title"@) && m.contains_key("permalink"@) && m.contains_key(
            "created_utc"@,
        ) {
            match (m["id"@], m["subreddit"@], m["title"@], m["permalink"@], m["created_utc"@]) {
                (
                    JsonRep::Str(id),
                    JsonRep::Str(subreddit),
                    JsonRep::Str(title),
                    JsonRep::Str(permalink),
                    JsonRep::Num(created_utc),
                ) => Some(SubmissionView { id, subreddit, title, permalink, created_utc }),
                _ => None,
            }
        } else {
            None
        },
        _ => None,
    }
}

/// The item a feed entry denotes: the record under its "data" field.
pub open spec fn entry_rep(entry: JsonRep) -> Option<SubmissionView> {
    match entry {
        JsonRep::Obj(m) => if m.contains_key("data"@) {
            record_rep(m["data"@])
        } else {
            None
        },
        _ => None,
    }
}

/// The items a listing's entries denote, in order; an entry that denotes
/// no item is skipped.
pub open spec fn children_reps(children: Seq<JsonRep>) -> Seq<SubmissionView>
    decreases children.len(),
{
    if children.len() == 0 {
        Seq::empty()
    } else {
        let pre = children_reps(children.drop_last());
        match entry_rep(children.last()) {
            Some(s) => pre.push(s),
            None => pre,
        }
    }
}

/// The entries of a feed response: the "children" array under "data".
pub open spec fn listing_of(rep: JsonRep) -> Option<Seq<JsonRep>> {
    match rep {
        JsonRep::Obj(m) => if m.contains_key("data"@) {
            match m["data"@] {
                JsonRep::Obj(d) => if d.contains_key("children"@) {
                    match d["children"@] {
                        JsonRep::Arr(children) => Some(children),
                        _ => None,
                    }
                } else {
                    None
                },
                _ => None,
            }
        } else {
            None
        },
        _ => None,
    }
}

/// The items a feed response denotes, or nothing when it carries no
/// listing.
pub open spec fn feed_reps(rep: JsonRep) -> Option<Seq<SubmissionView>> {
    match listing_of(rep) {
        Some(children) => Some(children_reps(children)),
        None => None,
    }
}

/// The items a feed response's text denotes, or nothing when the parser
/// refuses the text or it carries no listing.
pub open spec fn feed_of_text(s: Seq<char>) -> Option<Seq<SubmissionView>> {
    match parsed_json_of(s) {
        Some(rep) => feed_reps(rep),
        None => None,
    }
}

/// Reads one feed entry's record into an item: exactly the entries that
/// denote an item decode, to exactly that item.
fn decode_submission(entry: &serde_json::Value) -> (r: Option<Submission>)
    ensures
        match r {
            Some(s) => entry_rep(json_rep_of(*entry)) == Some(s@),
            None => entry_rep(json_rep_of(*entry)) is None,
        },
{
    let record = match json_get(entry, "data") {
        Some(record) => record,
        None => {
            return None;
        },
    };
    let id = match json_get(record, "id") {
        Some(f) => match json_as_str(f) {
            Some(s) => s,
            None => {
                return None;
            },
        },
        None => {
            return None;
        },
    };
    let subreddit = match json_get(record, "subreddit") {
        Some(f) => match json_as_str(f) {
            Some(s) => s,
            None => {
                return None;
            },
        },
        None => {
            return None;
        },
    };
    let title = match json_get(record, "title") {
        Some(f) => match json_as_str(f) {
            Some(s) => s,
            None => {
                return None;
            },
        },
        None => {
            return None;
        },
    };
    let permalink = match json_get(record, "permalink") {
        Some(f) => match json_as_str(f) {
            Some(s) => s,
            None => {
                return None;
            },
        },
        None => {
            return None;
        },
    };
    let created_utc = match json_get(record, "created_utc") {
        Some(f) => match json_number_seconds(f) {
            Some(n) => n,
            None => {
                return None;
            },
        },
        None => {
            return None;
        },
    };
    let s = Submission {
        id: id.to_owned(),
        subreddit: subreddit.to_owned(),
        title: title.to_owned(),
        permalink: permalink.to_owned(),
        created_utc,
    };
    proof {
        assert(entry_rep(json_rep_of(*entry)) == Some(s@));
    }
    Some(s)
}

/// Reads a feed response into item records: one item per entry that
/// denotes one, in order. `None` exactly when the response carries no
/// listing; a malformed entry is skipped rather than failing the whole
/// listing.
pub fn decode_submission_array(json: &serde_json::Value) -> (r: Option<Vec<Submission>>)
    ensures
        match r {
            Some(subs) => feed_reps(json_rep_of(*json)) == Some(sub_views(subs@)),
            None => feed_reps(json_rep_of(*json)) is None,
        },
{
    let data = match json_get(json, "data") {
        Some(data) => data,
        None => {
            return None;
        },
    };
    let children = match json_get(data, "children") {
        Some(f) => match json_as_array(f) {
            Some(children) => children,
            None => {
                return None;
            },
        },
        None => {
            return None;
        },
    };
    let ghost creps = listing_of(json_rep_of(*json))->Some_0;
    proof {
        assert(listing_of(json_rep_of(*json)) is Some);
        assert(creps.len() == children@.len());
        assert(forall|i: int| 0 <= i < creps.len() ==> json_rep_of(#[trigger] children@[i]) == creps[i]);
    }
    let mut subs: Vec<Submission> = Vec::new();
    let n = children.len();
    let mut i: usize = 0;
    #[verifier::loop_isolation(false)]
    while i < n
        invariant
            n == children@.len(),
            0 <= i <= n,
            sub_views(subs@) == children_reps(creps.take(i as int)),
        decreases n - i,
    {
        let ghost seen = subs@;
        match decode_submission(&children[i]) {
            Some(s) => {
                subs.push(s);
                proof {
                    assert(sub_views(subs@).drop_last() =~= sub_views(seen));
                }
            },
            None => (),
        }
        proof {
            let pre = creps.take(i as int);
            let ext = creps.take(i + 1int);
            assert(ext.drop_last() =~= pre);
            assert(ext.last() == creps[i as int]);
            assert(sub_views(subs@) =~= children_reps(ext));
        }
        i = i + 1;
    }
    proof {
        assert(creps.take(creps.len() as int) =~= creps);
    }
    Some(subs)
}

/// Reads a feed response's text into item records: `None` exactly on
/// text the JSON parser refuses or that carries no listing.
pub fn decode_feed(text: &str) -> (r: Option<Vec<Submission>>)
    ensures
        match r {
            Some(subs) => feed_of_text(text@) == Some(sub_views(subs@)),
            None => feed_of_text(text@) is None,
        },
{
    let json = match parse_json(text) {
        Some(json) => json,
        None => {
            return None;
        },
    };
    decode_submission_array(&json)
}

} // verus!
