//! Percent-encoding: the links of a listing are made of encoded path
//! segments, and the segments of a request are decoded again.

use vstd::prelude::*;
use vstd::utf8::encode_utf8;
use crate::text::digit_char;

verus! {

/// Bytes that stand for themselves in a link: ASCII letters and digits,
/// `-`, `.`, `_` and `~`.
pub open spec fn is_unreserved(b: u8) -> bool {
    ||| 0x41 <= b <= 0x5a
    ||| 0x61 <= b <= 0x7a
    ||| 0x30 <= b <= 0x39
    ||| b == 0x2d
    ||| b == 0x2e
    ||| b == 0x5f
    ||| b == 0x7e
}

/// The upper-case hexadecimal digit for `d`.
pub open spec fn hex_char(d: nat) -> char {
    if d < 10 {
        digit_char(d)
    } else if d == 10 {
        'A'
    } else if d == 11 {
        'B'
    } else if d == 12 {
        'C'
    } else if d == 13 {
        'D'
    } else if d == 14 {
        'E'
    } else {
        'F'
    }
}

/// How one byte appears in a link: itself where it is unreserved, else a
/// percent sign and its two hexadecimal digits.
pub open spec fn encoded_byte(b: u8) -> Seq<char> {
    if is_unreserved(b) {
        seq![b as char]
    } else {
        seq!['%', hex_char((b / 16) as nat), hex_char((b % 16) as nat)]
    }
}

/// The bytes of a text, each in its encoded form, in order.
pub open spec fn percent_encoded(bytes: Seq<u8>) -> Seq<char>
    decreases bytes.len(),
{
    if bytes.len() == 0 {
        Seq::empty()
    } else {
        percent_encoded(bytes.drop_last()) + encoded_byte(bytes.last())
    }
}

/// A link made of path segments: each one percent-encoded, with `/`
/// between neighbours.
pub open spec fn url_path(segments: Seq<Seq<char>>) -> Seq<char>
    decreases segments.len(),
{
    if segments.len() == 0 {
        Seq::empty()
    } else if segments.len() == 1 {
        percent_encoded(encode_utf8(segments[0]))
    } else {
        url_path(segments.drop_last()) + seq!['/'] + percent_encoded(
            encode_utf8(segments.last()),
        )
    }
}

fn unreserved(b: u8) -> (keep: bool)
    ensures
        keep == is_unreserved(b),
{
    (0x41 <= b && b <= 0x5a) || (0x61 <= b && b <= 0x7a) || (0x30 <= b && b <= 0x39) || b == 0x2d
        || b == 0x2e || b == 0x5f || b == 0x7e
}

fn hex_digit(d: u8) -> (c: char)
    requires
        d < 16,
    ensures
        c == hex_char(d as nat),
{
    let code: u8 = if d < 10 {
        48u8 + d
    } else {
        55u8 + d
    };
    code as char
}

/// Appends the percent-encoded form of `text` to `out`.
pub fn push_percent_encoded(out: &mut String, text: &str)
    ensures
        final(out)@ == old(out)@ + percent_encoded(encode_utf8(text@)),
{
    let bytes = text.as_bytes();
    let mut i: usize = 0;
    while i < bytes.len()
        invariant
            i <= bytes.len(),
            bytes@ == encode_utf8(text@),
            out@ == old(out)@ + percent_encoded(bytes@.take(i as int)),
        decreases bytes.len() - i,
    {
        let b = bytes[i];
        proof {
            let next = bytes@.take(i + 1);
            assert(next.drop_last() =~= bytes@.take(i as int));
        }
        if unreserved(b) {
            out.push(b as char);
        } else {
            out.push('%');
            out.push(hex_digit(b / 16));
            out.push(hex_digit(b % 16));
        }
        i = i + 1;
    }
    assert(bytes@.take(i as int) =~= bytes@);
}

/// The link to the path made of `segments`, and of `last` behind them where
/// there is one.
pub fn url_of(segments: &Vec<String>, last: Option<&str>) -> (url: String)
    ensures
        url@ == url_path(
            match last {
                Some(name) => segments.deep_view().push(name@),
                None => segments.deep_view(),
            },
        ),
{
    let mut url = String::new();
    let mut i: usize = 0;
    while i < segments.len()
        invariant
            i <= segments.len(),
            url@ == url_path(segments.deep_view().take(i as int)),
        decreases segments.len() - i,
    {
        proof {
            let next = segments.deep_view().take(i + 1);
            assert(next.drop_last() =~= segments.deep_view().take(i as int));
        }
        if i > 0 {
            url.push('/');
        }
        push_percent_encoded(&mut url, segments[i].as_str());
        i = i + 1;
    }
    assert(segments.deep_view().take(i as int) =~= segments.deep_view());
    match last {
        Some(name) => {
            proof {
                let all = segments.deep_view().push(name@);
                assert(all.drop_last() =~= segments.deep_view());
            }
            if i > 0 {
                url.push('/');
            }
            push_percent_encoded(&mut url, name);
        },
        None => {},
    }
    url
}

/// The value of a hexadecimal digit given as a byte, in either case; `None`
/// for any other byte.
pub open spec fn hex_value(b: u8) -> Option<u8> {
    if 0x30 <= b <= 0x39 {
        Some((b - 0x30) as u8)
    } else if 0x41 <= b <= 0x46 {
        Some((b - 0x37) as u8)
    } else if 0x61 <= b <= 0x66 {
        Some((b - 0x57) as u8)
    } else {
        None
    }
}

/// Whether an escape stands at the front of `text`: a percent sign and two
/// hexadecimal digits.
pub open spec fn starts_with_escape(text: Seq<u8>) -> bool {
    text.len() >= 3 && text[0] == 0x25 && hex_value(text[1]) is Some && hex_value(text[2]) is Some
}

/// The bytes that a percent-encoded text stands for: each escape gives the
/// byte that its digits name, and every other byte, a percent sign without
/// two digits behind it too, stands for itself.
pub open spec fn percent_decoded(text: Seq<u8>) -> Seq<u8>
    decreases text.len(),
{
    if text.len() == 0 {
        Seq::empty()
    } else if starts_with_escape(text) {
        seq![(16 * hex_value(text[1])->0 + hex_value(text[2])->0) as u8] + percent_decoded(
            text.skip(3),
        )
    } else {
        seq![text[0]] + percent_decoded(text.skip(1))
    }
}

fn hex_digit_value(b: u8) -> (value: Option<u8>)
    ensures
        value == hex_value(b),
        value matches Some(v) ==> v < 16,
{
    if 0x30 <= b && b <= 0x39 {
        Some(b - 0x30)
    } else if 0x41 <= b && b <= 0x46 {
        Some(b - 0x37)
    } else if 0x61 <= b && b <= 0x66 {
        Some(b - 0x57)
    } else {
        None
    }
}

/// Decodes one segment of a request path into the bytes it stands for.
pub fn decode_segment(segment: &str) -> (bytes: Vec<u8>)
    ensures
        bytes@ == percent_decoded(encode_utf8(segment@)),
{
    let text = segment.as_bytes();
    let mut bytes: Vec<u8> = Vec::new();
    let mut i: usize = 0;
    assert(text@.skip(0) =~= text@);
    while i < text.len()
        invariant
            i <= text.len(),
            text@ == encode_utf8(segment@),
            percent_decoded(text@) == bytes@ + percent_decoded(text@.skip(i as int)),
        decreases text.len() - i,
    {
        let ghost rest = text@.skip(i as int);
        let mut step: usize = 1;
        let mut byte: u8 = text[i];
        if text[i] == 0x25 && text.len() - i >= 3 {
            match (hex_digit_value(text[i + 1]), hex_digit_value(text[i + 2])) {
                (Some(high), Some(low)) => {
                    byte = 16 * high + low;
                    step = 3;
                },
                _ => {},
            }
        }
        bytes.push(byte);
        assert(rest.skip(step as int) =~= text@.skip(i + step));
        i = i + step;
    }
    bytes
}

/// The codes of a text's characters, as bytes.
spec fn codes(text: Seq<char>) -> Seq<u8> {
    Seq::new(text.len(), |i: int| text[i] as u8)
}

proof fn lemma_encoded_front(b: u8, rest: Seq<u8>)
    ensures
        percent_encoded(seq![b] + rest) == encoded_byte(b) + percent_encoded(rest),
    decreases rest.len(),
{
    let all = seq![b] + rest;
    if rest.len() == 0 {
        assert(all.drop_last() =~= Seq::<u8>::empty());
        assert(percent_encoded(all.drop_last()) =~= Seq::<char>::empty());
        assert(percent_encoded(all) =~= encoded_byte(b) + percent_encoded(rest));
    } else {
        assert(all.drop_last() =~= seq![b] + rest.drop_last());
        assert(all.last() == rest.last());
        lemma_encoded_front(b, rest.drop_last());
        assert(percent_encoded(all) =~= encoded_byte(b) + percent_encoded(rest));
    }
}

proof fn lemma_decoded_front(b: u8, tail: Seq<u8>)
    ensures
        percent_decoded(codes(encoded_byte(b)) + tail) == seq![b] + percent_decoded(tail),
{
    let text = codes(encoded_byte(b)) + tail;
    if is_unreserved(b) {
        assert(text[0] == b);
        assert(text.skip(1) =~= tail);
    } else {
        let high = (b / 16) as nat;
        let low = (b % 16) as nat;
        assert(text[0] == 0x25);
        assert(text[1] == hex_char(high) as u8);
        assert(text[2] == hex_char(low) as u8);
        assert(hex_value(hex_char(high) as u8) == Some(high as u8));
        assert(hex_value(hex_char(low) as u8) == Some(low as u8));
        assert(text.skip(3) =~= tail);
    }
}

proof fn lemma_encoded_is_ascii(bytes: Seq<u8>)
    ensures
        vstd::utf8::is_ascii_chars(percent_encoded(bytes)),
    decreases bytes.len(),
{
    if bytes.len() > 0 {
        lemma_encoded_is_ascii(bytes.drop_last());
        let front = percent_encoded(bytes.drop_last());
        let all = percent_encoded(bytes);
        assert forall|i: int| 0 <= i < all.len() implies '\0' <= #[trigger] all[i] <= '\u{7f}' by {
            if i < front.len() {
                assert(all[i] == front[i]);
            } else {
                assert(all[i] == encoded_byte(bytes.last())[i - front.len()]);
            }
        }
    }
}

proof fn lemma_round_trip_codes(bytes: Seq<u8>)
    ensures
        percent_decoded(codes(percent_encoded(bytes))) == bytes,
    decreases bytes.len(),
{
    if bytes.len() == 0 {
        assert(codes(percent_encoded(bytes)) =~= Seq::<u8>::empty());
    } else {
        let b = bytes[0];
        let rest = bytes.drop_first();
        assert(bytes =~= seq![b] + rest);
        lemma_encoded_front(b, rest);
        assert(codes(encoded_byte(b) + percent_encoded(rest)) =~= codes(encoded_byte(b)) + codes(
            percent_encoded(rest),
        ));
        lemma_decoded_front(b, codes(percent_encoded(rest)));
        lemma_round_trip_codes(rest);
    }
}

/// Decoding undoes encoding: whatever bytes a name is made of, the segment
/// of a link that stands for it is decoded to that name again.
pub proof fn lemma_decoding_undoes_encoding(bytes: Seq<u8>)
    ensures
        percent_decoded(encode_utf8(percent_encoded(bytes))) == bytes,
{
    lemma_encoded_is_ascii(bytes);
    vstd::utf8::is_ascii_chars_encode_utf8(percent_encoded(bytes));
    assert(encode_utf8(percent_encoded(bytes)) =~= codes(percent_encoded(bytes)));
    lemma_round_trip_codes(bytes);
}

/// An encoded segment holds no separator, so a link falls apart at its
/// slashes into the segments it was made of.
pub proof fn lemma_encoded_holds_no_separator(bytes: Seq<u8>)
    ensures
        !percent_encoded(bytes).contains('/'),
    decreases bytes.len(),
{
    if bytes.len() > 0 {
        lemma_encoded_holds_no_separator(bytes.drop_last());
        let front = percent_encoded(bytes.drop_last());
        let all = percent_encoded(bytes);
        assert forall|i: int| 0 <= i < all.len() implies all[i] != '/' by {
            if i < front.len() {
                assert(front.contains(front[i]));
            } else {
                assert(all[i] == encoded_byte(bytes.last())[i - front.len()]);
            }
        }
    }
}

} // verus!
