use rredditr::message::Message;
use rredditr::message::decode_message;
use rredditr::message::encode_message;
use rredditr::reddit::Submission;
use rredditr::reddit::decode_feed;
use rredditr::reddit::decode_submission_array;
use rredditr::reddit::feed_url;
use rredditr::text::parse_i64;
use rredditr::text::render_i64;

#[test]
fn decimal_rendering_is_exact() {
    assert_eq!(render_i64(0), "0");
    assert_eq!(render_i64(7), "7");
    assert_eq!(render_i64(1570000000), "1570000000");
    assert_eq!(render_i64(-5), "-5");
    assert_eq!(render_i64(i64::MAX), "9223372036854775807");
    assert_eq!(render_i64(i64::MIN), "-9223372036854775808");
}

#[test]
fn decimal_parsing_accepts_exactly_canonical_text() {
    assert_eq!(parse_i64("0"), Some(0));
    assert_eq!(parse_i64("42"), Some(42));
    assert_eq!(parse_i64("-42"), Some(-42));
    assert_eq!(parse_i64("9223372036854775807"), Some(i64::MAX));
    assert_eq!(parse_i64("-9223372036854775808"), Some(i64::MIN));
    assert_eq!(parse_i64(""), None);
    assert_eq!(parse_i64("-"), None);
    assert_eq!(parse_i64("-0"), None);
    assert_eq!(parse_i64("007"), None);
    assert_eq!(parse_i64("12x"), None);
    assert_eq!(parse_i64("9223372036854775808"), None);
    assert_eq!(parse_i64("-9223372036854775809"), None);
    assert_eq!(parse_i64("99999999999999999999999999"), None);
}

#[test]
fn payload_round_trip() {
    let m = Message { target: 1234, link: "https://www.reddit.com/r/news/abc".to_string() };
    let text = encode_message(&m);
    assert_eq!(text, "1234 https://www.reddit.com/r/news/abc");
    let back = decode_message(&text).unwrap();
    assert_eq!(back.target, 1234);
    assert_eq!(back.link, "https://www.reddit.com/r/news/abc");
}

#[test]
fn payload_round_trip_with_negative_target_and_spaces() {
    let m = Message { target: -99, link: "a link with spaces".to_string() };
    let text = encode_message(&m);
    let back = decode_message(&text).unwrap();
    assert_eq!(back.target, -99);
    assert_eq!(back.link, "a link with spaces");
}

#[test]
fn malformed_payloads_are_rejected() {
    assert!(decode_message("").is_none());
    assert!(decode_message("no-space").is_none());
    assert!(decode_message("abc link").is_none());
    assert!(decode_message("-0 link").is_none());
    assert!(decode_message("99999999999999999999999999 link").is_none());
}

#[test]
fn submission_key_tag_and_url() {
    let s = Submission {
        id: "abc".to_string(),
        subreddit: "news".to_string(),
        title: "a title".to_string(),
        permalink: "/r/news/abc".to_string(),
        created_utc: 1570000000,
    };
    assert_eq!(s.get_key(), "posts/abc");
    assert_eq!(s.get_tag(1570000300), "1570000000:1570000300");
    assert_eq!(s.get_url(), "https://www.reddit.com/r/news/abc");
    assert_eq!(feed_url("news"), "https://api.reddit.com/r/news/new.json");
}

#[test]
fn feed_decoding_reads_every_well_formed_entry() {
    let text = r#"{"data":{"children":[
        {"data":{"id":"abc","subreddit":"news","title":"t1",
                 "permalink":"/r/news/abc","created_utc":1570000000.5}},
        {"data":{"id":"def","subreddit":"news","title":"t2",
                 "permalink":"/r/news/def","created_utc":1570000100}}
    ]}}"#;
    let subs = decode_feed(text).unwrap();
    assert_eq!(subs.len(), 2);
    assert_eq!(subs[0].id, "abc");
    assert_eq!(subs[0].created_utc, 1570000000);
    assert_eq!(subs[1].permalink, "/r/news/def");
    assert_eq!(subs[1].created_utc, 1570000100);
}

#[test]
fn feed_decoding_skips_malformed_entries() {
    let text = r#"{"data":{"children":[
        {"data":{"id":"ok","subreddit":"s","title":"t",
                 "permalink":"/p","created_utc":5}},
        {"data":{"id":"missing-fields"}},
        {"no-data-at-all":true}
    ]}}"#;
    let subs = decode_feed(text).unwrap();
    assert_eq!(subs.len(), 1);
    assert_eq!(subs[0].id, "ok");
}

#[test]
fn feed_decoding_rejects_a_shapeless_response() {
    let json: serde_json::Value = serde_json::from_str(r#"{"error":"rate limited"}"#).unwrap();
    assert!(decode_submission_array(&json).is_none());
    assert!(decode_feed("not json at all").is_none());
}
