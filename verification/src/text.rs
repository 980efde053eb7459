//! Decimal text for signed integers: the pipeline renders timestamps into
//! marker tags and renders / parses subscriber identifiers in queue payloads.

use vstd::prelude::*;
use vstd::string::StrSliceExecFns;
use vstd::string::StringExecFns;

verus! {

/// The character for one decimal digit value.
pub open spec fn dec_digit(d: int) -> char {
    if d == 0 {
        '0'
    } else if d == 1 {
        '1'
    } else if d == 2 {
        '2'
    } else if d == 3 {
        '3'
    } else if d == 4 {
        '4'
    } else if d == 5 {
        '5'
    } else if d == 6 {
        '6'
    } else if d == 7 {
        '7'
    } else if d == 8 {
        '8'
    } else {
        '9'
    }
}

/// Decimal representation of a natural number, most significant digit first.
pub open spec fn dec_rep(n: nat) -> Seq<char>
    decreases n,
{
    if n < 10 {
        seq![dec_digit(n as int)]
    } else {
        dec_rep(n / 10).push(dec_digit((n % 10) as int))
    }
}

/// Decimal representation of an integer: a leading '-' for negatives.
pub open spec fn int_rep(n: int) -> Seq<char> {
    if n < 0 {
        seq!['-'] + dec_rep((-n) as nat)
    } else {
        dec_rep(n as nat)
    }
}

/// Whether a character is a decimal digit.
pub open spec fn is_dec_digit(c: char) -> bool {
    c == '0' || c == '1' || c == '2' || c == '3' || c == '4' || c == '5' || c == '6' || c == '7'
        || c == '8' || c == '9'
}

/// The value of a decimal digit character (0 for anything else).
pub open spec fn digit_val(c: char) -> int {
    if c == '1' {
        1
    } else if c == '2' {
        2
    } else if c == '3' {
        3
    } else if c == '4' {
        4
    } else if c == '5' {
        5
    } else if c == '6' {
        6
    } else if c == '7' {
        7
    } else if c == '8' {
        8
    } else if c == '9' {
        9
    } else {
        0
    }
}

/// The value of a sequence of digit characters, most significant first.
pub open spec fn digits_val(s: Seq<char>) -> int
    decreases s.len(),
{
    if s.len() == 0 {
        0
    } else {
        digits_val(s.drop_last()) * 10 + digit_val(s.last())
    }
}

/// A canonical unsigned decimal: nonempty, all digits, no leading zero.
pub open spec fn is_canon_nat(s: Seq<char>) -> bool {
    &&& s.len() > 0
    &&& (forall|i: int| 0 <= i < s.len() ==> is_dec_digit(#[trigger] s[i]))
    &&& (s.len() > 1 ==> s[0] != '0')
}

/// The integer a piece of text denotes: a canonical unsigned decimal,
/// optionally preceded by '-' (never "-0"), and nothing else.
pub open spec fn parse_int(s: Seq<char>) -> Option<int> {
    if s.len() > 0 && s[0] == '-' {
        let rest = s.subrange(1, s.len() as int);
        if is_canon_nat(rest) && digits_val(rest) > 0 {
            Some(-digits_val(rest))
        } else {
            None
        }
    } else if is_canon_nat(s) {
        Some(digits_val(s))
    } else {
        None
    }
}

/// `parse_int`, restricted to values an i64 can hold.
pub open spec fn parse_i64_spec(s: Seq<char>) -> Option<int> {
    match parse_int(s) {
        Some(v) => if i64::MIN <= v <= i64::MAX {
            Some(v)
        } else {
            None
        },
        None => None,
    }
}

/// The digits of a decimal representation are digits, the value reads back,
/// and there is never a leading zero.
pub proof fn lemma_dec_rep_canon(n: nat)
    ensures
        is_canon_nat(dec_rep(n)),
        digits_val(dec_rep(n)) == n,
        n > 0 ==> dec_rep(n)[0] != '0',
    decreases n,
{
    if n < 10 {
        let s = seq![dec_digit(n as int)];
        assert(dec_rep(n) == s);
        assert(s.drop_last() =~= Seq::<char>::empty());
        assert(digits_val(s) == digits_val(s.drop_last()) * 10 + digit_val(s.last()));
        assert(digit_val(dec_digit(n as int)) == n);
    } else {
        lemma_dec_rep_canon(n / 10);
        let s = dec_rep(n);
        let p = dec_rep(n / 10);
        assert(s == p.push(dec_digit((n % 10) as int)));
        assert(s.drop_last() =~= p);
        assert(s.last() == dec_digit((n % 10) as int));
        assert(digits_val(s) == (n / 10) * 10 + (n % 10));
        assert(s[0] == p[0]);
        assert(forall|i: int| 0 <= i < s.len() ==> is_dec_digit(#[trigger] s[i])) by {
            assert(forall|i: int| 0 <= i < p.len() ==> is_dec_digit(#[trigger] p[i]));
        }
    }
}

/// An integer's decimal representation never contains a space.
pub proof fn lemma_int_rep_no_space(n: int)
    ensures
        forall|i: int| 0 <= i < int_rep(n).len() ==> #[trigger] int_rep(n)[i] != ' ',
{
    if n < 0 {
        lemma_dec_rep_canon((-n) as nat);
        let s = int_rep(n);
        let rest = dec_rep((-n) as nat);
        assert(forall|i: int|
            1 <= i < s.len() ==> #[trigger] s[i] == rest[i - 1] && is_dec_digit(rest[i - 1]));
    } else {
        lemma_dec_rep_canon(n as nat);
        let s = int_rep(n);
        assert(forall|i: int| 0 <= i < s.len() ==> is_dec_digit(#[trigger] s[i]));
    }
}

/// Parsing inverts rendering.
pub proof fn lemma_parse_int_rep(n: int)
    ensures
        parse_int(int_rep(n)) == Some(n),
{
    if n < 0 {
        lemma_dec_rep_canon((-n) as nat);
        let s = int_rep(n);
        let rest = dec_rep((-n) as nat);
        assert(s[0] == '-');
        assert(s.subrange(1, s.len() as int) =~= rest);
    } else {
        lemma_dec_rep_canon(n as nat);
        let s = int_rep(n);
        assert(is_dec_digit(s[0]));
        assert(s[0] != '-');
    }
}

/// The one-character string for a decimal digit value.
fn digit_str(d: u64) -> (r: &'static str)
    requires
        d < 10,
    ensures
        r@ =~= seq![dec_digit(d as int)],
{
    match d {
        0 => {
            proof {
                reveal_strlit("0");
            }
            "0"
        },
        1 => {
            proof {
                reveal_strlit("1");
            }
            "1"
        },
        2 => {
            proof {
                reveal_strlit("2");
            }
            "2"
        },
        3 => {
            proof {
                reveal_strlit("3");
            }
            "3"
        },
        4 => {
            proof {
                reveal_strlit("4");
            }
            "4"
        },
        5 => {
            proof {
                reveal_strlit("5");
            }
            "5"
        },
        6 => {
            proof {
                reveal_strlit("6");
            }
            "6"
        },
        7 => {
            proof {
                reveal_strlit("7");
            }
            "7"
        },
        8 => {
            proof {
                reveal_strlit("8");
            }
            "8"
        },
        _ => {
            proof {
                reveal_strlit("9");
            }
            "9"
        },
    }
}

/// Renders an unsigned number in decimal.
pub fn render_u64(n: u64) -> (r: String)
    ensures
        r@ == dec_rep(n as nat),
    decreases n,
{
    if n < 10 {
        digit_str(n).to_owned()
    } else {
        let mut s = render_u64(n / 10);
        s.append(digit_str(n % 10));
        assert(s@ =~= dec_rep(n as nat));
        s
    }
}

/// Renders a signed number in decimal, with a leading '-' for negatives.
pub fn render_i64(n: i64) -> (r: String)
    ensures
        r@ == int_rep(n as int),
{
    if n >= 0 {
        render_u64(n as u64)
    } else {
        let mag: u64 = if n == i64::MIN {
            9223372036854775808u64
        } else {
            (-n) as u64
        };
        let mut s = "-".to_owned();
        let digits = render_u64(mag);
        s.append(digits.as_str());
        proof {
            reveal_strlit("-");
            assert(s@ =~= seq!['-'] + dec_rep((-(n as int)) as nat));
        }
        s
    }
}

/// The value of a decimal digit character, if it is one.
fn digit_of_char(c: char) -> (r: Option<u64>)
    ensures
        match r {
            Some(d) => is_dec_digit(c) && d < 10 && d as int == digit_val(c),
            None => !is_dec_digit(c),
        },
{
    match c {
        '0' => Some(0),
        '1' => Some(1),
        '2' => Some(2),
        '3' => Some(3),
        '4' => Some(4),
        '5' => Some(5),
        '6' => Some(6),
        '7' => Some(7),
        '8' => Some(8),
        '9' => Some(9),
        _ => None,
    }
}

/// The value of any digit prefix never shrinks as more digits arrive.
proof fn lemma_digits_val_nonneg(s: Seq<char>)
    requires
        forall|i: int| 0 <= i < s.len() ==> is_dec_digit(#[trigger] s[i]),
    ensures
        digits_val(s) >= 0,
    decreases s.len(),
{
    if s.len() > 0 {
        lemma_digits_val_nonneg(s.drop_last());
    }
}

/// Parses a signed decimal, accepting exactly the canonical forms whose
/// value fits in an i64.
#[verifier::loop_isolation(false)]
pub fn parse_i64(s: &str) -> (r: Option<i64>)
    ensures
        match r {
            Some(v) => parse_i64_spec(s@) == Some(v as int),
            None => parse_i64_spec(s@) is None,
        },
{
    let len = s.unicode_len();
    let neg = len > 0 && s.get_char(0) == '-';
    let start: usize = if neg {
        1
    } else {
        0
    };
    let ghost digits = s@.subrange(start as int, len as int);
    proof {
        if !neg {
            assert(digits =~= s@);
        }
    }
    if len == start {
        return None;
    }
    if len - start > 1 && s.get_char(start) == '0' {
        assert(digits[0] == '0' && digits.len() > 1);
        return None;
    }
    let mut acc: u64 = 0;
    let mut i = start;
    while i < len
        invariant
            start <= i <= len,
            forall|j: int| start <= j < i ==> is_dec_digit(#[trigger] s@[j]),
            acc as int == digits_val(s@.subrange(start as int, i as int)),
        decreases len - i,
    {
        let c = s.get_char(i);
        let ghost pre = s@.subrange(start as int, i as int);
        let ghost ext = s@.subrange(start as int, i + 1int);
        proof {
            assert(ext.drop_last() =~= pre);
            assert(ext.last() == c);
        }
        let d = match digit_of_char(c) {
            Some(d) => d,
            None => {
                proof {
                    assert(!is_dec_digit(digits[i - start]));
                }
                return None;
            },
        };
        if acc > (u64::MAX - d) / 10 {
            proof {
                assert(digits_val(ext) > u64::MAX);
                if forall|j: int| start <= j < len ==> is_dec_digit(#[trigger] s@[j]) {
                    lemma_out_of_range(s@, start as int, i as int, len as int);
                    lemma_digits_val_nonneg(digits);
                } else {
                    let j = choose|j: int| start <= j < len && !is_dec_digit(#[trigger] s@[j]);
                    assert(!is_dec_digit(digits[j - start]));
                }
            }
            return None;
        }
        acc = acc * 10 + d;
        i = i + 1;
    }
    proof {
        assert(s@.subrange(start as int, i as int) =~= digits);
        assert(digits_val(digits) == acc as int);
        assert(is_canon_nat(digits));
    }
    if neg {
        if acc > 9223372036854775808u64 {
            None
        } else if acc == 0 {
            None
        } else if acc == 9223372036854775808u64 {
            Some(i64::MIN)
        } else {
            Some(-(acc as i64))
        }
    } else {
        if acc > i64::MAX as u64 {
            None
        } else {
            Some(acc as i64)
        }
    }
}

/// Once a digit prefix is too large for an i64 and another digit follows,
/// the whole text is out of range.
proof fn lemma_out_of_range(s: Seq<char>, start: int, i: int, len: int)
    requires
        0 <= start <= i < len <= s.len(),
        forall|j: int| start <= j < len ==> is_dec_digit(#[trigger] s[j]),
        digits_val(s.subrange(start, i)) * 10 + digit_val(s[i]) > u64::MAX,
    ensures
        digits_val(s.subrange(start, len)) > u64::MAX,
    decreases len - i,
{
    let ext = s.subrange(start, i + 1);
    assert(ext.drop_last() =~= s.subrange(start, i));
    assert(ext.last() == s[i]);
    assert(digits_val(ext) > u64::MAX);
    if i + 1 < len {
        lemma_digits_grow(s, start, i + 1, len);
    } else {
        assert(s.subrange(start, len) =~= ext);
    }
}

/// Appending digits never shrinks the value.
proof fn lemma_digits_grow(s: Seq<char>, start: int, i: int, len: int)
    requires
        0 <= start <= i <= len <= s.len(),
        forall|j: int| start <= j < len ==> is_dec_digit(#[trigger] s[j]),
    ensures
        digits_val(s.subrange(start, len)) >= digits_val(s.subrange(start, i)),
    decreases len - i,
{
    if i < len {
        let pre = s.subrange(start, i);
        let ext = s.subrange(start, i + 1);
        assert(ext.drop_last() =~= pre);
        lemma_digits_val_nonneg(pre);
        assert(digits_val(ext) == digits_val(pre) * 10 + digit_val(ext.last()));
        assert(digits_val(ext) >= digits_val(pre));
        lemma_digits_grow(s, start, i + 1, len);
    } else {
        assert(s.subrange(start, len) =~= s.subrange(start, i));
    }
}

} // verus!
