//! Percent-decoding of a path segment.
use vstd::prelude::*;
use vstd::utf8::*;

verus! {

/// The value of a hexadecimal digit.
pub open spec fn hex_digit(b: u8) -> Option<u8> {
    if 0x30 <= b <= 0x39 {
        Some((b - 0x30) as u8)
    } else if 0x41 <= b <= 0x46 {
        Some((b - 0x41 + 10) as u8)
    } else if 0x61 <= b <= 0x66 {
        Some((b - 0x61 + 10) as u8)
    } else {
        None
    }
}

/// The byte that `b` begins by escaping: a percent sign and two hexadecimal
/// digits.
pub open spec fn escaped_byte(b: Seq<u8>) -> Option<u8> {
    if b.len() >= 3 && b[0] == 0x25 && hex_digit(b[1]) is Some && hex_digit(b[2]) is Some {
        Some((16 * hex_digit(b[1])->0 + hex_digit(b[2])->0) as u8)
    } else {
        None
    }
}

/// `b` with each escape replaced by the byte it stands for, and everything
/// else passed through.
pub open spec fn unescaped(b: Seq<u8>) -> Seq<u8>
    decreases b.len(),
{
    if b.len() == 0 {
        b
    } else {
        match escaped_byte(b) {
            Some(v) => seq![v] + unescaped(b.skip(3)),
            None => seq![b[0]] + unescaped(b.skip(1)),
        }
    }
}

/// The text that `String::from_utf8_lossy` makes of `bytes`.
pub uninterp spec fn utf8_lossy(bytes: Seq<u8>) -> Seq<char>;

/// `String::from_utf8_lossy` of std, as an owned string. The text depends on
/// the bytes alone; it is their decoding where they are valid UTF-8.
#[verifier::external_body]
fn utf8_lossy_string(bytes: &Vec<u8>) -> (r: String)
    ensures
        r@ == utf8_lossy(bytes@),
        valid_utf8(bytes@) ==> r@ == decode_utf8(bytes@),
{
    String::from_utf8_lossy(bytes).into_owned()
}

/// What percent-decoding makes of `s`.
pub open spec fn percent_decoded(s: Seq<char>) -> Seq<char> {
    utf8_lossy(unescaped(encode_utf8(s)))
}

fn hex_value(b: u8) -> (r: Option<u8>)
    ensures
        r == hex_digit(b),
{
    if 0x30 <= b && b <= 0x39 {
        Some(b - 0x30)
    } else if 0x41 <= b && b <= 0x46 {
        Some(b - 0x41 + 10)
    } else if 0x61 <= b && b <= 0x66 {
        Some(b - 0x61 + 10)
    } else {
        None
    }
}

/// Replaces each escape in `bytes` by the byte it stands for.
pub fn percent_decode_bytes(bytes: &[u8]) -> (r: Vec<u8>)
    ensures
        r@ == unescaped(bytes@),
{
    let mut out: Vec<u8> = Vec::new();
    let mut i: usize = 0;
    assert(bytes@.skip(0) =~= bytes@);
    while i < bytes.len()
        invariant
            i <= bytes@.len(),
            out@ + unescaped(bytes@.skip(i as int)) == unescaped(bytes@),
        decreases bytes@.len() - i,
    {
        let ghost before = out@;
        let ghost rest = bytes@.skip(i as int);
        let mut decoded: Option<u8> = None;
        if bytes[i] == 0x25 && bytes.len() - i >= 3 {
            if let Some(hi) = hex_value(bytes[i + 1]) {
                if let Some(lo) = hex_value(bytes[i + 2]) {
                    decoded = Some(16 * hi + lo);
                }
            }
        }
        assert(decoded == escaped_byte(rest));
        match decoded {
            Some(v) => {
                out.push(v);
                assert(rest.skip(3) =~= bytes@.skip(i + 3));
                assert(out@ + unescaped(rest.skip(3)) =~= before + unescaped(rest));
                i = i + 3;
            },
            None => {
                out.push(bytes[i]);
                assert(rest.skip(1) =~= bytes@.skip(i + 1));
                assert(out@ + unescaped(rest.skip(1)) =~= before + unescaped(rest));
                i = i + 1;
            },
        }
    }
    assert(out@ =~= out@ + unescaped(bytes@.skip(i as int)));
    out
}

/// Decodes the last path segment of a download address, to make a nicer file
/// name: `session%20log.txt` becomes `session log.txt`. Anything that is no
/// escape is passed through, and bytes that are no UTF-8 raise no error.
pub fn percent_decode(input: &str) -> (r: String)
    ensures
        r@ == percent_decoded(input@),
        r@ == utf8_lossy(unescaped(encode_utf8(input@))),
        valid_utf8(unescaped(encode_utf8(input@))) ==> r@ == decode_utf8(
            unescaped(encode_utf8(input@)),
        ),
        !input@.contains('%') ==> r@ == input@,
{
    let bytes = percent_decode_bytes(input.as_bytes());
    let r = utf8_lossy_string(&bytes);
    proof {
        if !input@.contains('%') {
            lemma_no_percent_byte(input@);
            law_plain_bytes_pass_through(encode_utf8(input@));
            encode_utf8_valid_utf8(input@);
            encode_utf8_decode_utf8(input@);
        }
    }
    r
}

proof fn lemma_multibyte(c: u32)
    by (bit_vector)
    requires
        0x80 <= c <= 0x10ffff,
    ensures
        0xC0u8 | ((c >> 6) & 0x1F) as u8 >= 0x80,
        0xE0u8 | ((c >> 12) & 0x0F) as u8 >= 0x80,
        0xF0u8 | ((c >> 18) & 0x7) as u8 >= 0x80,
        0x80u8 | (c & 0x3F) as u8 >= 0x80,
        0x80u8 | ((c >> 6) & 0x3F) as u8 >= 0x80,
        0x80u8 | ((c >> 12) & 0x3F) as u8 >= 0x80,
{
}

proof fn lemma_no_percent_scalar(c: char)
    requires
        c != '%',
    ensures
        !encode_scalar(c as u32).contains(0x25),
{
    let v: u32 = c as u32;
    char_is_scalar(c);
    assert('%' as u32 == 0x25);
    if v < 0x80 {
        assert((v & 0x7F) as u8 == v) by (bit_vector)
            requires
                v < 0x80u32,
        ;
        assert(encode_scalar(v) =~= seq![v as u8]);
    } else {
        lemma_multibyte(v);
    }
}

proof fn lemma_no_percent_byte(s: Seq<char>)
    requires
        !s.contains('%'),
    ensures
        !encode_utf8(s).contains(0x25),
    decreases s.len(),
{
    if s.len() > 0 {
        let head = encode_scalar(s[0] as u32);
        let rest = encode_utf8(s.drop_first());
        assert(s.contains(s[0]));
        assert forall|x: char| s.drop_first().contains(x) implies s.contains(x) by {
            let i = choose|i: int| 0 <= i < s.drop_first().len() && s.drop_first()[i] == x;
            assert(s[i + 1] == x);
        }
        lemma_no_percent_byte(s.drop_first());
        lemma_no_percent_scalar(s[0]);
        assert forall|i: int| 0 <= i < (head + rest).len() implies (head + rest)[i] != 0x25 by {
            if i < head.len() {
                assert(head.contains(head[i]));
            } else {
                assert(rest.contains(rest[i - head.len()]));
            }
        }
    }
}

/// Bytes without a percent sign are passed through as they are.
pub proof fn law_plain_bytes_pass_through(b: Seq<u8>)
    requires
        !b.contains(0x25),
    ensures
        unescaped(b) == b,
    decreases b.len(),
{
    if b.len() > 0 {
        assert(b.contains(b[0]));
        assert forall|x: u8| b.skip(1).contains(x) implies b.contains(x) by {
            let i = choose|i: int| 0 <= i < b.skip(1).len() && b.skip(1)[i] == x;
            assert(b[i + 1] == x);
        }
        law_plain_bytes_pass_through(b.skip(1));
        assert(unescaped(b) =~= b);
    }
}

/// A hexadecimal digit, in capitals.
pub open spec fn hex_char(v: nat) -> u8 {
    if v < 10 {
        (0x30 + v) as u8
    } else {
        (0x41 + (v - 10)) as u8
    }
}

/// `b` percent-encoded: the bytes that `keep` picks are kept, every other one
/// is escaped.
pub open spec fn percent_encoded(b: Seq<u8>, keep: spec_fn(u8) -> bool) -> Seq<u8>
    decreases b.len(),
{
    if b.len() == 0 {
        b
    } else if keep(b[0]) {
        seq![b[0]] + percent_encoded(b.skip(1), keep)
    } else {
        seq![0x25u8, hex_char((b[0] / 16) as nat), hex_char((b[0] % 16) as nat)] + percent_encoded(
            b.skip(1),
            keep,
        )
    }
}

/// Decoding undoes encoding, whatever bytes the encoder chose to escape, as
/// long as it escaped the percent sign itself.
pub proof fn law_decoding_undoes_encoding(b: Seq<u8>, keep: spec_fn(u8) -> bool)
    requires
        !keep(0x25),
    ensures
        unescaped(percent_encoded(b, keep)) == b,
    decreases b.len(),
{
    if b.len() > 0 {
        let e = percent_encoded(b, keep);
        let rest = percent_encoded(b.skip(1), keep);
        law_decoding_undoes_encoding(b.skip(1), keep);
        if keep(b[0]) {
            assert(e.skip(1) =~= rest);
            assert(e[0] == b[0]);
        } else {
            assert(e.skip(3) =~= rest);
            assert(escaped_byte(e) == Some(b[0]));
        }
        assert(unescaped(e) =~= b);
    }
}

/// Text comes back from its encoding: the bytes that decoding yields are valid
/// UTF-8, and they are those of the text.
pub proof fn law_encoded_text_is_decoded(
    text: Seq<char>,
    input: Seq<char>,
    keep: spec_fn(u8) -> bool,
)
    requires
        !keep(0x25),
        encode_utf8(input) == percent_encoded(encode_utf8(text), keep),
    ensures
        valid_utf8(unescaped(encode_utf8(input))),
        decode_utf8(unescaped(encode_utf8(input))) == text,
{
    law_decoding_undoes_encoding(encode_utf8(text), keep);
    encode_utf8_valid_utf8(text);
    encode_utf8_decode_utf8(text);
}

/// A percent sign and two hexadecimal digits, in either case, stand for the
/// byte with that value.
pub proof fn law_escape_stands_for_its_byte(h1: u8, d1: u8, h2: u8, d2: u8, rest: Seq<u8>)
    requires
        (0x30 <= h1 <= 0x39 && d1 == h1 - 0x30) || (0x41 <= h1 <= 0x46 && d1 == h1 - 0x41 + 10) || (
        0x61 <= h1 <= 0x66 && d1 == h1 - 0x61 + 10),
        (0x30 <= h2 <= 0x39 && d2 == h2 - 0x30) || (0x41 <= h2 <= 0x46 && d2 == h2 - 0x41 + 10) || (
        0x61 <= h2 <= 0x66 && d2 == h2 - 0x61 + 10),
    ensures
        unescaped(seq![0x25u8, h1, h2] + rest) == seq![(16 * d1 + d2) as u8] + unescaped(rest),
{
    let b = seq![0x25u8, h1, h2] + rest;
    assert(b.skip(3) =~= rest);
    assert(escaped_byte(b) == Some((16 * d1 + d2) as u8));
}

/// A byte that is no percent sign stands for itself.
pub proof fn law_other_byte_stands_for_itself(b: u8, rest: Seq<u8>)
    requires
        b != 0x25,
    ensures
        unescaped(seq![b] + rest) == seq![b] + unescaped(rest),
{
    assert((seq![b] + rest).skip(1) =~= rest);
}

/// A percent sign that two hexadecimal digits do not follow stands for itself.
pub proof fn law_lone_percent_stands_for_itself(rest: Seq<u8>)
    requires
        rest.len() < 2 || !(0x30 <= rest[0] <= 0x39 || 0x41 <= rest[0] <= 0x46 || 0x61 <= rest[0]
            <= 0x66) || !(0x30 <= rest[1] <= 0x39 || 0x41 <= rest[1] <= 0x46 || 0x61 <= rest[1]
            <= 0x66),
    ensures
        unescaped(seq![0x25u8] + rest) == seq![0x25u8] + unescaped(rest),
{
    let b = seq![0x25u8] + rest;
    assert(b.skip(1) =~= rest);
    if rest.len() >= 2 {
        assert(b[1] == rest[0] && b[2] == rest[1]);
    }
}

/// No bytes stand for no bytes.
pub proof fn law_nothing_is_decoded_to_nothing(b: Seq<u8>)
    ensures
        unescaped(b).len() == 0 <==> b.len() == 0,
{
}

} // verus!
