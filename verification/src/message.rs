//! Queue payloads: a notification pairs a recipient with a link, and is
//! carried through the delivery queue as one piece of text.

use vstd::prelude::*;
use vstd::string::StrSliceExecFns;
use vstd::string::StringExecFns;
use crate::text::int_rep;
use crate::text::lemma_int_rep_no_space;
use crate::text::lemma_parse_int_rep;
use crate::text::parse_i64;
use crate::text::parse_i64_spec;
use crate::text::render_i64;

verus! {

/// One notification: deliver `link` to the recipient `target`.
pub struct Message {
    pub target: i64,
    pub link: String,
}

/// What a `Message` denotes.
pub ghost struct MessageView {
    pub target: i64,
    pub link: Seq<char>,
}

impl View for Message {
    type V = MessageView;

    open spec fn view(&self) -> MessageView {
        MessageView { target: self.target, link: self.link@ }
    }
}

/// The payload text for a notification: the recipient in decimal, one
/// space, then the link (which may itself contain spaces).
pub open spec fn msg_enc(target: i64, link: Seq<char>) -> Seq<char> {
    int_rep(target as int) + seq![' '] + link
}

/// Index of the first space in a piece of text, or -1 if there is none.
pub open spec fn first_space(s: Seq<char>) -> int
    decreases s.len(),
{
    if s.len() == 0 {
        -1
    } else if s[0] == ' ' {
        0
    } else {
        let r = first_space(s.drop_first());
        if r < 0 {
            -1
        } else {
            r + 1
        }
    }
}

/// The notification a payload text denotes: everything before the first
/// space must be a recipient in decimal; everything after it is the link.
pub open spec fn decode_spec(s: Seq<char>) -> Option<MessageView> {
    let i = first_space(s);
    if i < 0 {
        None
    } else {
        match parse_i64_spec(s.subrange(0, i)) {
            Some(t) => Some(MessageView { target: t as i64, link: s.subrange(i + 1, s.len() as int) }),
            None => None,
        }
    }
}

proof fn lemma_first_space_at(s: Seq<char>, j: int)
    requires
        0 <= j < s.len(),
        s[j] == ' ',
        forall|k: int| 0 <= k < j ==> s[k] != ' ',
    ensures
        first_space(s) == j,
    decreases j,
{
    if j > 0 {
        lemma_first_space_at(s.drop_first(), j - 1);
    }
}

proof fn lemma_first_space_none(s: Seq<char>)
    requires
        forall|k: int| 0 <= k < s.len() ==> s[k] != ' ',
    ensures
        first_space(s) == -1,
    decreases s.len(),
{
    if s.len() > 0 {
        lemma_first_space_none(s.drop_first());
    }
}

/// Renders a notification as one payload text.
pub fn encode_message(m: &Message) -> (r: String)
    ensures
        r@ == msg_enc(m.target, m.link@),
{
    let mut s = render_i64(m.target);
    s.append(" ");
    s.append(m.link.as_str());
    proof {
        reveal_strlit(" ");
        assert(s@ =~= msg_enc(m.target, m.link@));
    }
    s
}

/// Reads a payload text back into a notification; `None` exactly on text
/// that no notification encodes to.
pub fn decode_message(s: &str) -> (r: Option<Message>)
    ensures
        match r {
            Some(m) => decode_spec(s@) == Some(m@),
            None => decode_spec(s@) is None,
        },
{
    let len = s.unicode_len();
    let mut j: usize = 0;
    #[verifier::loop_isolation(false)]
    while j < len && s.get_char(j) != ' '
        invariant
            0 <= j <= len,
            forall|k: int| 0 <= k < j ==> s@[k] != ' ',
        decreases len - j,
    {
        j = j + 1;
    }
    if j == len {
        proof {
            lemma_first_space_none(s@);
        }
        return None;
    }
    proof {
        lemma_first_space_at(s@, j as int);
    }
    let head = s.substring_char(0, j);
    let target = match parse_i64(head) {
        Some(t) => t,
        None => {
            return None;
        },
    };
    let link = s.substring_char(j + 1, len).to_owned();
    Some(Message { target, link })
}

/// Law: decoding a rendered payload yields the notification it came from,
/// whatever the recipient and link.
pub proof fn lemma_message_round_trip(target: i64, link: Seq<char>)
    ensures
        decode_spec(msg_enc(target, link)) == Some(MessageView { target, link }),
{
    let enc = msg_enc(target, link);
    let rep = int_rep(target as int);
    lemma_int_rep_no_space(target as int);
    lemma_first_space_at(enc, rep.len() as int);
    assert(enc.subrange(0, rep.len() as int) =~= rep);
    lemma_parse_int_rep(target as int);
    assert(enc.subrange(rep.len() as int + 1, enc.len() as int) =~= link);
}

} // verus!
