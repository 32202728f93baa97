//! Decoding the text of EXIF user comments, which arrive as hexadecimal dumps
//! of an 8-byte encoding marker followed by the comment.
use vstd::prelude::*;
use vstd::slice::{slice_subrange, slice_to_vec};
use vstd::utf8::{decode_utf8, encode_utf8, valid_utf8};
use vstd::string::StringSliceAdditionalSpecFns;
use crate::text::{chars_of, is_whitespace, is_whitespace_char, string_from_chars, utf8_to_string};

verus! {

/// The value of a hexadecimal digit byte.
pub open spec fn hex_digit_value(b: u8) -> Option<u8> {
    if 48 <= b && b <= 57 {
        Some((b - 48) as u8)
    } else if 97 <= b && b <= 102 {
        Some((b - 87) as u8)
    } else if 65 <= b && b <= 70 {
        Some((b - 55) as u8)
    } else {
        None
    }
}

/// The byte that a two-character text parses to with `u8::from_str_radix(_, 16)`:
/// two hexadecimal digits, or a `+` sign followed by one digit.
pub open spec fn hex_pair_value(b0: u8, b1: u8) -> Option<u8> {
    if b0 == 43 {
        hex_digit_value(b1)
    } else {
        match (hex_digit_value(b0), hex_digit_value(b1)) {
            (Some(x), Some(y)) => Some((16 * x + y) as u8),
            _ => None,
        }
    }
}

/// The bytes a hexadecimal dump `0x..` stands for: each pair of characters
/// after the `0x` prefix is one byte. `None` without the prefix, with an odd
/// number of characters after it, or with a pair that is not a byte.
pub open spec fn spec_hex_bytes(b: Seq<u8>) -> Option<Seq<u8>> {
    if b.len() < 2 || b[0] != 48 || b[1] != 120 {
        None
    } else {
        let h = b.skip(2);
        if h.len() % 2 != 0 {
            None
        } else if forall|i: int| 0 <= i < h.len() / 2 ==> #[trigger] hex_pair_value(h[2 * i], h[2 * i + 1]) is Some {
            Some(Seq::new((h.len() / 2) as nat, |i: int| hex_pair_value(h[2 * i], h[2 * i + 1])->Some_0))
        } else {
            None
        }
    }
}

/// The lowercase hexadecimal digit byte of a value below 16.
pub open spec fn hex_digit_byte(v: u8) -> u8 {
    if v < 10 { (48 + v) as u8 } else { (87 + v) as u8 }
}

/// The lowercase hexadecimal text of bytes, two digits per byte, most
/// significant digit first.
pub open spec fn hex_encode(b: Seq<u8>) -> Seq<u8> {
    Seq::new(2 * b.len(), |i: int| if i % 2 == 0 { hex_digit_byte(b[i / 2] / 16) } else { hex_digit_byte(b[i / 2] % 16) })
}

/// Law: bytes written as `0x` followed by their lowercase hexadecimal digits
/// decode back to the same bytes.
pub proof fn lemma_hex_round_trip(b: Seq<u8>)
    ensures
        spec_hex_bytes(seq![48u8, 120u8] + hex_encode(b)) == Some(b),
{
    let s = seq![48u8, 120u8] + hex_encode(b);
    let h = s.skip(2);
    assert(h =~= hex_encode(b));
    assert(h.len() == 2 * b.len());
    assert forall|i: int| 0 <= i < h.len() / 2 implies #[trigger] hex_pair_value(h[2 * i], h[2 * i + 1]) == Some(b[i]) by {
        assert((2 * i) % 2 == 0 && (2 * i) / 2 == i);
        assert((2 * i + 1) % 2 == 1 && (2 * i + 1) / 2 == i);
        let x = b[i];
        let hi = x / 16;
        let lo = x % 16;
        assert(h[2 * i] == hex_digit_byte(hi));
        assert(h[2 * i + 1] == hex_digit_byte(lo));
        assert(hex_digit_value(hex_digit_byte(hi)) == Some(hi));
        assert(hex_digit_value(hex_digit_byte(lo)) == Some(lo));
        assert(hex_digit_byte(hi) != 43);
        assert((16 * hi + lo) as u8 == x) by (bit_vector)
            requires hi == x / 16, lo == x % 16;
    }
    assert(Seq::new((h.len() / 2) as nat, |i: int| hex_pair_value(h[2 * i], h[2 * i + 1])->Some_0) =~= b);
}

/// The value of a hexadecimal digit byte.
fn hex_digit(b: u8) -> (res: Option<u8>)
    ensures
        res == hex_digit_value(b),
{
    if 48 <= b && b <= 57 {
        Some(b - 48)
    } else if 97 <= b && b <= 102 {
        Some(b - 87)
    } else if 65 <= b && b <= 70 {
        Some(b - 55)
    } else {
        None
    }
}

/// The bytes of a hexadecimal dump such as `0x41424344`, measured on the
/// UTF-8 bytes of the text.
pub fn hex_string_to_bytes(s: &str) -> (res: Option<Vec<u8>>)
    ensures
        match res {
            Some(v) => spec_hex_bytes(s.spec_bytes()) == Some(v@),
            None => spec_hex_bytes(s.spec_bytes()) is None,
        },
{
    let b = s.as_bytes();
    if b.len() < 2 || b[0] != 48 || b[1] != 120 {
        return None;
    }
    let h = slice_subrange(b, 2, b.len());
    assert(h@ == b@.skip(2));
    if h.len() % 2 != 0 {
        return None;
    }
    let mut out: Vec<u8> = Vec::new();
    let mut i: usize = 0;
    while i < h.len() / 2
        invariant
            h@ == s.spec_bytes().skip(2),
            s.spec_bytes().len() >= 2,
            s.spec_bytes()[0] == 48,
            s.spec_bytes()[1] == 120,
            h@.len() % 2 == 0,
            i <= h@.len() / 2,
            out@.len() == i,
            forall|j: int| 0 <= j < i ==> #[trigger] hex_pair_value(h@[2 * j], h@[2 * j + 1]) == Some(out@[j]),
        decreases h@.len() / 2 - i,
    {
        let b0 = h[2 * i];
        let b1 = h[2 * i + 1];
        let v = if b0 == 43 {
            hex_digit(b1)
        } else {
            match (hex_digit(b0), hex_digit(b1)) {
                (Some(x), Some(y)) => Some(16 * x + y),
                _ => None,
            }
        };
        match v {
            Some(x) => out.push(x),
            None => {
                assert(hex_pair_value(h@[2 * i as int], h@[2 * i as int + 1]) is None);
                return None;
            },
        }
        i = i + 1;
    }
    assert(out@ =~= Seq::new((h@.len() / 2) as nat, |j: int| hex_pair_value(h@[2 * j], h@[2 * j + 1])->Some_0));
    Some(out)
}

/// A character that comment trimming removes: white space or NUL.
pub open spec fn is_trimmed(c: char) -> bool {
    is_whitespace_char(c) || c == '\0'
}

/// `s` without its leading trimmed characters.
pub open spec fn trim_start(s: Seq<char>) -> Seq<char>
    decreases s.len(),
{
    if s.len() > 0 && is_trimmed(s[0]) {
        trim_start(s.drop_first())
    } else {
        s
    }
}

/// `s` without its trailing trimmed characters.
pub open spec fn trim_end(s: Seq<char>) -> Seq<char>
    decreases s.len(),
{
    if s.len() > 0 && is_trimmed(s.last()) {
        trim_end(s.drop_last())
    } else {
        s
    }
}

/// The bytes of the marker `ASCII\0\0\0`.
pub open spec fn ascii_marker() -> Seq<u8> {
    seq![65u8, 83u8, 67u8, 73u8, 73u8, 0u8, 0u8, 0u8]
}

/// The text of a user comment: with the `ASCII` marker, the UTF-8 text after
/// it without surrounding white space and NUL characters, when that text is at
/// least 3 bytes long. Other markers are not decoded.
pub open spec fn spec_user_comment(raw: Seq<u8>) -> Option<Seq<char>> {
    if raw.len() < 8 || raw.take(8) != ascii_marker() {
        None
    } else {
        let data = raw.skip(8);
        if !valid_utf8(data) {
            None
        } else {
            let cleaned = trim_end(trim_start(decode_utf8(data)));
            if encode_utf8(cleaned).len() >= 3 {
                Some(cleaned)
            } else {
                None
            }
        }
    }
}

/// The text of an EXIF user comment (see `spec_user_comment`).
pub fn user_comment_to_string(raw: &[u8]) -> (res: Option<String>)
    ensures
        match res {
            Some(s) => spec_user_comment(raw@) == Some(s@),
            None => spec_user_comment(raw@) is None,
        },
{
    if raw.len() < 8 {
        return None;
    }
    let is_ascii_marker = raw[0] == 65 && raw[1] == 83 && raw[2] == 67 && raw[3] == 73 && raw[4] == 73
        && raw[5] == 0 && raw[6] == 0 && raw[7] == 0;
    proof {
        if is_ascii_marker {
            assert(raw@.take(8) =~= ascii_marker());
        } else {
            if raw@.take(8) == ascii_marker() {
                assert(raw@.take(8)[0] == 65u8);
                assert(raw@.take(8)[1] == 83u8);
                assert(raw@.take(8)[2] == 67u8);
                assert(raw@.take(8)[3] == 73u8);
                assert(raw@.take(8)[4] == 73u8);
                assert(raw@.take(8)[5] == 0u8);
                assert(raw@.take(8)[6] == 0u8);
                assert(raw@.take(8)[7] == 0u8);
            }
        }
    }
    if !is_ascii_marker {
        return None;
    }
    let data = slice_to_vec(slice_subrange(raw, 8, raw.len()));
    assert(data@ == raw@.skip(8));
    let decoded = match utf8_to_string(data) {
        Ok(s) => s,
        Err(_) => return None,
    };
    let cs = chars_of(decoded.as_str());
    let mut start: usize = 0;
    assert(cs@.skip(0) =~= cs@);
    while start < cs.len() && (is_whitespace(cs[start]) || cs[start] == '\0')
        invariant
            start <= cs@.len(),
            trim_start(cs@) == trim_start(cs@.skip(start as int)),
        decreases cs@.len() - start,
    {
        assert(cs@.skip(start as int).drop_first() =~= cs@.skip(start + 1));
        start = start + 1;
    }
    let mut end: usize = cs.len();
    let ghost ts = cs@.skip(start as int);
    assert(trim_start(cs@) == ts) by {
        assert(cs@.skip(start as int) == ts);
    }
    while end > start && (is_whitespace(cs[end - 1]) || cs[end - 1] == '\0')
        invariant
            start <= end <= cs@.len(),
            ts == cs@.skip(start as int),
            trim_end(ts) == trim_end(cs@.subrange(start as int, end as int)),
        decreases end,
    {
        assert(cs@.subrange(start as int, end as int).drop_last() =~= cs@.subrange(start as int, end - 1));
        end = end - 1;
    }
    proof {
        assert(cs@.skip(start as int) =~= cs@.subrange(start as int, cs@.len() as int));
    }
    let cleaned = string_from_chars(slice_subrange(cs.as_slice(), start, end));
    assert(cleaned@ == trim_end(trim_start(decode_utf8(raw@.skip(8)))));
    assert(raw@.take(8) == ascii_marker());
    assert(valid_utf8(raw@.skip(8)));
    let n = cleaned.as_str().as_bytes().len();
    assert(n == encode_utf8(cleaned@).len());
    if n >= 3 {
        Some(cleaned)
    } else {
        None
    }
}

} // verus!
