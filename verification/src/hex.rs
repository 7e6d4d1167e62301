//! Hexadecimal text for keys and signatures: lowercase on output, either case
//! on input.

use crate::text::{chars_of, push_char};
use vstd::prelude::*;

verus! {

/// The hex digit of a nibble, lowercase.
pub open spec fn hex_digit(n: int) -> char {
    if n < 10 {
        (48 + n) as char
    } else {
        (87 + n) as char
    }
}

/// Whether `c` is one of `0`..=`9`, `a`..=`f`.
pub open spec fn is_lower_hex_digit(c: char) -> bool {
    ('0' <= c && c <= '9') || ('a' <= c && c <= 'f')
}

/// Whether every character of `s` is a lowercase hex digit.
pub open spec fn is_lower_hex(s: Seq<char>) -> bool {
    forall|i: int| 0 <= i < s.len() ==> is_lower_hex_digit(#[trigger] s[i])
}

/// The two lowercase hex digits of a byte.
pub open spec fn byte_hex(b: u8) -> Seq<char> {
    seq![hex_digit((b / 16) as int), hex_digit((b % 16) as int)]
}

/// Lowercase hex text of a byte sequence, two digits per byte.
pub open spec fn hex_text(b: Seq<u8>) -> Seq<char>
    decreases b.len(),
{
    if b.len() == 0 {
        Seq::empty()
    } else {
        hex_text(b.drop_last()) + byte_hex(b.last())
    }
}

/// The value of a hex digit of either case.
pub open spec fn hex_value(c: char) -> Option<int> {
    if '0' <= c && c <= '9' {
        Some(c as int - 48)
    } else if 'a' <= c && c <= 'f' {
        Some(c as int - 87)
    } else if 'A' <= c && c <= 'F' {
        Some(c as int - 55)
    } else {
        None
    }
}

/// The bytes that hex text denotes: `None` unless the text has an even
/// number of characters, all of them hex digits.
pub open spec fn hex_bytes(s: Seq<char>) -> Option<Seq<u8>>
    decreases s.len(),
{
    if s.len() == 0 {
        Some(Seq::empty())
    } else if s.len() == 1 {
        None
    } else {
        match (hex_bytes(s.subrange(0, s.len() - 2)), hex_value(s[s.len() - 2]), hex_value(
            s[s.len() - 1],
        )) {
            (Some(p), Some(h), Some(l)) => Some(p.push((h * 16 + l) as u8)),
            _ => None,
        }
    }
}

fn nibble_char(n: u8) -> (c: char)
    requires
        n < 16,
    ensures
        c == hex_digit(n as int),
{
    if n < 10 {
        (48 + n) as char
    } else {
        (87 + n) as char
    }
}

/// Lowercase hex encoding of `bytes`.
pub fn hex_encode(bytes: &[u8]) -> (s: String)
    ensures
        s@ == hex_text(bytes@),
{
    let mut s = String::new();
    let mut i: usize = 0;
    while i < bytes.len()
        invariant
            i <= bytes.len(),
            s@ == hex_text(bytes@.take(i as int)),
        decreases bytes.len() - i,
    {
        let b = bytes[i];
        proof {
            assert(bytes@.take(i + 1).drop_last() =~= bytes@.take(i as int));
        }
        push_char(&mut s, nibble_char(b / 16));
        push_char(&mut s, nibble_char(b % 16));
        assert(s@ =~= hex_text(bytes@.take(i + 1)));
        i = i + 1;
    }
    assert(bytes@.take(bytes.len() as int) =~= bytes@);
    s
}

fn digit_value(c: char) -> (v: Option<u8>)
    ensures
        match v {
            Some(x) => hex_value(c) == Some(x as int) && x < 16,
            None => hex_value(c) is None,
        },
{
    let u = c as u32;
    if 48 <= u && u <= 57 {
        Some((u - 48) as u8)
    } else if 97 <= u && u <= 102 {
        Some((u - 87) as u8)
    } else if 65 <= u && u <= 70 {
        Some((u - 55) as u8)
    } else {
        None
    }
}

/// Decodes hex text of either case; `None` on an odd length or a non-hex character.
pub fn hex_decode(s: &str) -> (r: Option<Vec<u8>>)
    ensures
        match r {
            Some(v) => hex_bytes(s@) == Some(v@),
            None => hex_bytes(s@) is None,
        },
{
    let c = chars_of(s);
    let n = c.len();
    if n % 2 == 1 {
        proof {
            lemma_odd_is_none(c@);
        }
        return None;
    }
    let mut out: Vec<u8> = Vec::new();
    let mut i: usize = 0;
    while i < n
        invariant
            c@ == s@,
            n == c.len(),
            n % 2 == 0,
            i <= n,
            i % 2 == 0,
            hex_bytes(c@.subrange(0, i as int)) == Some(out@),
        decreases n - i,
    {
        let hi = digit_value(c[i]);
        let lo = digit_value(c[i + 1]);
        let ghost pre = c@.subrange(0, i + 2);
        proof {
            assert(pre.subrange(0, i as int) =~= c@.subrange(0, i as int));
            assert(pre[i as int] == c@[i as int]);
            assert(pre[i + 1] == c@[i + 1]);
        }
        match (hi, lo) {
            (Some(h), Some(l)) => {
                out.push(h * 16 + l);
            },
            _ => {
                proof {
                    assert(pre.len() == i + 2);
                    assert(hex_value(pre[pre.len() - 2]) is None || hex_value(pre[pre.len() - 1]) is None);
                    assert(hex_bytes(pre) is None);
                    lemma_bad_prefix_is_none(c@, i + 2);
                }
                return None;
            },
        }
        i = i + 2;
    }
    assert(c@.subrange(0, n as int) =~= c@);
    Some(out)
}

proof fn lemma_odd_is_none(s: Seq<char>)
    requires
        s.len() % 2 == 1,
    ensures
        hex_bytes(s) is None,
    decreases s.len(),
{
    if s.len() > 1 {
        lemma_odd_is_none(s.subrange(0, s.len() - 2));
    }
}

proof fn lemma_bad_prefix_is_none(s: Seq<char>, k: int)
    requires
        0 <= k <= s.len(),
        k % 2 == 0,
        s.len() % 2 == 0,
        hex_bytes(s.subrange(0, k)) is None,
    ensures
        hex_bytes(s) is None,
    decreases s.len() - k,
{
    if k < s.len() {
        let t = s.subrange(0, k + 2);
        assert(t.subrange(0, k) =~= s.subrange(0, k));
        lemma_bad_prefix_is_none(s, k + 2);
    } else {
        assert(s.subrange(0, k) =~= s);
    }
}

/// Decoding the hex text of bytes gives the bytes back.
pub proof fn lemma_hex_roundtrip(b: Seq<u8>)
    ensures
        hex_bytes(hex_text(b)) == Some(b),
        hex_text(b).len() == 2 * b.len(),
        is_lower_hex(hex_text(b)),
    decreases b.len(),
{
    if b.len() > 0 {
        let p = b.drop_last();
        lemma_hex_roundtrip(p);
        let t = hex_text(b);
        assert(t.subrange(0, t.len() - 2) =~= hex_text(p));
        let x = b.last();
        assert(hex_value(hex_digit((x / 16) as int)) == Some((x / 16) as int));
        assert(hex_value(hex_digit((x % 16) as int)) == Some((x % 16) as int));
        assert(((x / 16) * 16 + x % 16) as u8 == x);
        assert(p.push(x) =~= b);
        let d = byte_hex(x);
        assert(is_lower_hex_digit(d[0]) && is_lower_hex_digit(d[1]));
        assert forall|i: int| 0 <= i < t.len() implies is_lower_hex_digit(#[trigger] t[i]) by {
            if i < t.len() - 2 {
                assert(t[i] == hex_text(p)[i]);
            } else {
                assert(t[i] == d[i - (t.len() - 2)]);
            }
        }
    }
}

} // verus!
