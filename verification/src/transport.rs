//! The transport encoding: output bytes cross to the presentation layer as
//! base64 text in the standard alphabet, three bytes to four symbols, with
//! `=` padding in the last group.

use vstd::prelude::*;

verus! {

/// The padding symbol that fills the last group of an encoding.
pub const PAD: char = '=';

/// The symbol that stands for a 6-bit digit in the standard alphabet:
/// `A` to `Z` for 0 to 25, `a` to `z` for 26 to 51, `0` to `9` for 52 to 61,
/// then `+` and `/`.
pub open spec fn symbol(digit: int) -> char
    recommends
        0 <= digit < 64,
{
    if digit < 26 {
        ('A' as int + digit) as char
    } else if digit < 52 {
        ('a' as int + digit - 26) as char
    } else if digit < 62 {
        ('0' as int + digit - 52) as char
    } else if digit == 62 {
        '+'
    } else {
        '/'
    }
}

/// The integer that three bytes make when read as one 24-bit number.
pub open spec fn triple(b0: u8, b1: u8, b2: u8) -> int {
    b0 as int * 65536 + b1 as int * 256 + b2 as int
}

/// The encoding of one group of one to three bytes: always four symbols.
pub open spec fn encode_group(group: Seq<u8>) -> Seq<char>
    recommends
        1 <= group.len() <= 3,
{
    let b0 = group[0];
    let b1 = if group.len() > 1 { group[1] } else { 0u8 };
    let b2 = if group.len() > 2 { group[2] } else { 0u8 };
    let t = triple(b0, b1, b2);
    seq![
        symbol(t / 262144),
        symbol((t / 4096) % 64),
        if group.len() > 1 { symbol((t / 64) % 64) } else { PAD },
        if group.len() > 2 { symbol(t % 64) } else { PAD },
    ]
}

/// The base64 text of a byte sequence.
pub open spec fn encoding(bytes: Seq<u8>) -> Seq<char>
    decreases bytes.len(),
{
    if bytes.len() == 0 {
        Seq::empty()
    } else if bytes.len() <= 3 {
        encode_group(bytes)
    } else {
        encode_group(bytes.take(3)) + encoding(bytes.skip(3))
    }
}

/// The digit that a symbol of the alphabet stands for; `None` for any other
/// character, the padding symbol included.
pub open spec fn digit_of(c: char) -> Option<int> {
    if 'A' <= c <= 'Z' {
        Some(c as int - 'A' as int)
    } else if 'a' <= c <= 'z' {
        Some(c as int - 'a' as int + 26)
    } else if '0' <= c <= '9' {
        Some(c as int - '0' as int + 52)
    } else if c == '+' {
        Some(62)
    } else if c == '/' {
        Some(63)
    } else {
        None
    }
}

/// The bytes that one group of four symbols stands for. Padding is accepted
/// in the last group of a text only, and only where the bits that it leaves
/// unused are zero, so that every byte sequence has exactly one text.
pub open spec fn decode_group(group: Seq<char>, last: bool) -> Option<Seq<u8>>
    recommends
        group.len() == 4,
{
    match (digit_of(group[0]), digit_of(group[1])) {
        (Some(d0), Some(d1)) => {
            let b0 = (d0 * 4 + d1 / 16) as u8;
            if group[2] == PAD {
                if group[3] == PAD && last && d1 % 16 == 0 {
                    Some(seq![b0])
                } else {
                    None
                }
            } else {
                match digit_of(group[2]) {
                    Some(d2) => {
                        let b1 = ((d1 % 16) * 16 + d2 / 4) as u8;
                        if group[3] == PAD {
                            if last && d2 % 4 == 0 {
                                Some(seq![b0, b1])
                            } else {
                                None
                            }
                        } else {
                            match digit_of(group[3]) {
                                Some(d3) => Some(seq![b0, b1, ((d2 % 4) * 64 + d3) as u8]),
                                None => None,
                            }
                        }
                    },
                    None => None,
                }
            }
        },
        _ => None,
    }
}

/// The byte sequence that a base64 text stands for; `None` where the text is
/// not the encoding of any byte sequence.
pub open spec fn decoding(text: Seq<char>) -> Option<Seq<u8>>
    decreases text.len(),
{
    if text.len() == 0 {
        Some(Seq::empty())
    } else if text.len() < 4 {
        None
    } else if text.len() == 4 {
        decode_group(text, true)
    } else {
        match (decode_group(text.take(4), false), decoding(text.skip(4))) {
            (Some(head), Some(rest)) => Some(head + rest),
            _ => None,
        }
    }
}

/// `String::push` of std appends the given `char` to the end of the string
/// and changes nothing else.
pub assume_specification[ String::push ](s: &mut String, c: char)
    ensures
        final(s)@ == old(s)@.push(c),
;

/// The symbol of a digit.
fn symbol_of(digit: u32) -> (c: char)
    requires
        digit < 64,
    ensures
        c == symbol(digit as int),
{
    let d: u8 = digit as u8;
    if d < 26 {
        ('A' as u8 + d) as char
    } else if d < 52 {
        ('a' as u8 + (d - 26)) as char
    } else if d < 62 {
        ('0' as u8 + (d - 52)) as char
    } else if d == 62 {
        '+'
    } else {
        '/'
    }
}

/// The shifts and masks that cut a 24-bit number into its four digits.
proof fn lemma_digits(b0: u32, b1: u32, b2: u32)
    by (bit_vector)
    requires
        b0 < 256,
        b1 < 256,
        b2 < 256,
    ensures
        ({
            let t = (b0 << 16) | (b1 << 8) | b2;
            &&& t == b0 * 65536 + b1 * 256 + b2
            &&& (t >> 18) & 0x3F == t / 262144
            &&& (t >> 12) & 0x3F == (t / 4096) % 64
            &&& (t >> 6) & 0x3F == (t / 64) % 64
            &&& t & 0x3F == t % 64
            &&& t / 262144 < 64
        }),
{
}

/// Encodes `input` as base64 text in the standard alphabet, with `=` padding
/// in the last group.
pub fn base64_encode(input: &[u8]) -> (text: String)
    ensures
        text@ == encoding(input@),
{
    let n = input.len();
    let mut result = String::new();
    let mut i: usize = 0;
    assert(input@.skip(0) =~= input@);
    while i < n
        invariant
            i <= n,
            n == input@.len(),
            encoding(input@) == result@ + encoding(input@.skip(i as int)),
        decreases n - i,
    {
        let rest = n - i;
        let b0 = input[i] as u32;
        let b1 = if rest > 1 { input[i + 1] as u32 } else { 0 };
        let b2 = if rest > 2 { input[i + 2] as u32 } else { 0 };
        let triple = (b0 << 16) | (b1 << 8) | b2;
        proof {
            lemma_digits(b0, b1, b2);
        }
        let ghost before = result@;
        let ghost tail = input@.skip(i as int);
        let ghost group = if rest > 3 { tail.take(3) } else { tail };
        result.push(symbol_of((triple >> 18) & 0x3F));
        result.push(symbol_of((triple >> 12) & 0x3F));
        if rest > 1 {
            result.push(symbol_of((triple >> 6) & 0x3F));
        } else {
            result.push(PAD);
        }
        if rest > 2 {
            result.push(symbol_of(triple & 0x3F));
        } else {
            result.push(PAD);
        }
        proof {
            assert(result@ =~= before + encode_group(group));
            if rest > 3 {
                assert(tail.skip(3) =~= input@.skip(i + 3));
            } else {
                assert(input@.skip(n as int) =~= Seq::<u8>::empty());
            }
        }
        i = if rest > 3 { i + 3 } else { n };
    }
    assert(input@.skip(n as int) =~= Seq::<u8>::empty());
    result
}

/// The digit of an ASCII symbol.
fn digit_of_byte(b: u8) -> (digit: Option<u8>)
    requires
        b < 128,
    ensures
        match digit {
            Some(d) => digit_of(b as char) == Some(d as int) && d < 64,
            None => digit_of(b as char) is None,
        },
{
    if ('A' as u8) <= b && b <= ('Z' as u8) {
        Some(b - 'A' as u8)
    } else if ('a' as u8) <= b && b <= ('z' as u8) {
        Some(b - 'a' as u8 + 26)
    } else if ('0' as u8) <= b && b <= ('9' as u8) {
        Some(b - '0' as u8 + 52)
    } else if b == ('+' as u8) {
        Some(62)
    } else if b == ('/' as u8) {
        Some(63)
    } else {
        None
    }
}

/// With what is decoded so far in front of it.
spec fn after(done: Seq<u8>, rest: Option<Seq<u8>>) -> Option<Seq<u8>> {
    match rest {
        Some(bytes) => Some(done + bytes),
        None => None,
    }
}

/// A text that decodes holds symbols and padding only, all of them ASCII.
proof fn lemma_decodable_is_ascii(text: Seq<char>)
    requires
        decoding(text) is Some,
    ensures
        vstd::utf8::is_ascii_chars(text),
    decreases text.len(),
{
    if text.len() > 4 {
        let head = text.take(4);
        let tail = text.skip(4);
        lemma_decodable_is_ascii(tail);
        assert forall|i: int| 0 <= i < text.len() implies '\0' <= #[trigger] text[i]
            <= '\u{7f}' by {
            if i < 4 {
                assert(text[i] == head[i]);
            } else {
                assert(text[i] == tail[i - 4]);
            }
        }
    }
}

/// Decodes base64 text in the standard alphabet. Returns the bytes where
/// `text` is the encoding of a byte sequence, and `None` for any other text.
pub fn base64_decode(text: &str) -> (bytes: Option<Vec<u8>>)
    ensures
        match bytes {
            Some(v) => decoding(text@) == Some(v@),
            None => decoding(text@) is None,
        },
{
    if !text.is_ascii() {
        proof {
            if decoding(text@) is Some {
                lemma_decodable_is_ascii(text@);
            }
        }
        return None;
    }
    let raw = text.as_bytes();
    proof {
        vstd::utf8::is_ascii_chars_encode_utf8(text@);
    }
    let n = raw.len();
    let mut out: Vec<u8> = Vec::new();
    let mut i: usize = 0;
    assert(text@.skip(0) =~= text@);
    while i < n
        invariant
            i <= n,
            n == raw@.len(),
            n == text@.len(),
            forall|j: int| 0 <= j < n ==> text@[j] as u8 == #[trigger] raw@[j],
            forall|j: int| 0 <= j < n ==> '\0' <= #[trigger] text@[j] <= '\u{7f}',
            decoding(text@) == after(out@, decoding(text@.skip(i as int))),
        decreases n - i,
    {
        let ghost tail = text@.skip(i as int);
        if n - i < 4 {
            return None;
        }
        let last = n - i == 4;
        let ghost group = if last { tail } else { tail.take(4) };
        let c0 = raw[i];
        let c1 = raw[i + 1];
        let c2 = raw[i + 2];
        let c3 = raw[i + 3];
        proof {
            assert(group[0] == text@[i as int] && group[1] == text@[i + 1]);
            assert(group[2] == text@[i + 2] && group[3] == text@[i + 3]);
            assert(c0 as char == group[0] && c1 as char == group[1]);
            assert(c2 as char == group[2] && c3 as char == group[3]);
            if !last {
                assert(tail.skip(4) =~= text@.skip(i + 4));
            }
        }
        let ghost done = out@;
        let (d0, d1) = match (digit_of_byte(c0), digit_of_byte(c1)) {
            (Some(d0), Some(d1)) => (d0, d1),
            _ => {
                return None;
            },
        };
        out.push(d0 * 4 + d1 / 16);
        if c2 == ('=' as u8) {
            if !(c3 == ('=' as u8) && last && d1 % 16 == 0) {
                return None;
            }
        } else {
            let d2 = match digit_of_byte(c2) {
                Some(d2) => d2,
                None => {
                    return None;
                },
            };
            out.push((d1 % 16) * 16 + d2 / 4);
            if c3 == ('=' as u8) {
                if !(last && d2 % 4 == 0) {
                    return None;
                }
            } else {
                let d3 = match digit_of_byte(c3) {
                    Some(d3) => d3,
                    None => {
                        return None;
                    },
                };
                out.push((d2 % 4) * 64 + d3);
            }
        }
        proof {
            let head = decode_group(group, last)->0;
            assert(decode_group(group, last) is Some);
            assert(out@ =~= done + head);
            if last {
                assert(text@.skip(n as int) =~= Seq::<char>::empty());
                assert(head + Seq::<u8>::empty() =~= head);
            } else {
                let rest = decoding(tail.skip(4));
                if rest is Some {
                    assert(done + (head + rest->0) =~= (done + head) + rest->0);
                }
            }
        }
        i = i + 4;
    }
    proof {
        assert(text@.skip(n as int) =~= Seq::<char>::empty());
        assert(out@ + Seq::<u8>::empty() =~= out@);
    }
    Some(out)
}

/// An encoding has four symbols for every group of up to three bytes.
pub proof fn lemma_encoding_len(bytes: Seq<u8>)
    ensures
        encoding(bytes).len() == 4 * ((bytes.len() + 2) / 3),
    decreases bytes.len(),
{
    if bytes.len() > 3 {
        lemma_encoding_len(bytes.skip(3));
    }
}

/// Decoding inverts encoding: the text of any byte sequence, the empty one
/// and those whose length is no multiple of three included, decodes to that
/// byte sequence.
pub proof fn lemma_decoding_inverts_encoding(bytes: Seq<u8>)
    ensures
        decoding(encoding(bytes)) == Some(bytes),
    decreases bytes.len(),
{
    if bytes.len() == 0 {
    } else if bytes.len() <= 3 {
        lemma_group_round_trip(bytes);
    } else {
        let head = bytes.take(3);
        let tail = bytes.skip(3);
        let text = encoding(bytes);
        lemma_group_round_trip(head);
        lemma_decoding_inverts_encoding(tail);
        lemma_encoding_len(tail);
        assert(text.take(4) =~= encode_group(head));
        assert(text.skip(4) =~= encoding(tail));
        assert(head + tail =~= bytes);
    }
}

/// Every byte sequence has exactly one text: a text that decodes is the
/// encoding of what it decodes to.
pub proof fn lemma_encoding_inverts_decoding(text: Seq<char>)
    requires
        decoding(text) is Some,
    ensures
        encoding(decoding(text)->0) == text,
    decreases text.len(),
{
    if text.len() == 0 {
    } else if text.len() == 4 {
        lemma_group_text_is_unique(text, true);
    } else {
        let head = decode_group(text.take(4), false)->0;
        let rest = decoding(text.skip(4))->0;
        lemma_group_text_is_unique(text.take(4), false);
        lemma_encoding_inverts_decoding(text.skip(4));
        lemma_encoding_len(rest);
        let bytes = head + rest;
        assert(bytes.take(3) =~= head);
        assert(bytes.skip(3) =~= rest);
        assert(text =~= text.take(4) + text.skip(4));
    }
}

/// Each digit is read back from its symbol, and no symbol is the padding.
proof fn lemma_symbol_digit(d: int)
    requires
        0 <= d < 64,
    ensures
        digit_of(symbol(d)) == Some(d),
        symbol(d) != PAD,
{
}

/// The four digits of a 24-bit number give its three bytes back.
proof fn lemma_digits_bytes(b0: u32, b1: u32, b2: u32)
    by (bit_vector)
    requires
        b0 < 256,
        b1 < 256,
        b2 < 256,
    ensures
        ({
            let t = (b0 * 65536 + b1 * 256 + b2) as u32;
            let d0 = t / 262144;
            let d1 = (t / 4096) % 64;
            let d2 = (t / 64) % 64;
            let d3 = t % 64;
            &&& t == b0 * 65536 + b1 * 256 + b2
            &&& d0 < 64
            &&& d0 * 4 + d1 / 16 == b0
            &&& (d1 % 16) * 16 + d2 / 4 == b1
            &&& (d2 % 4) * 64 + d3 == b2
            &&& b1 == 0 && b2 == 0 ==> d1 % 16 == 0
            &&& b2 == 0 ==> d2 % 4 == 0
        }),
{
}

/// A group of bytes is read back from its four symbols.
proof fn lemma_group_round_trip(group: Seq<u8>)
    requires
        1 <= group.len() <= 3,
    ensures
        decode_group(encode_group(group), group.len() < 3) == Some(group),
        group.len() == 3 ==> decode_group(encode_group(group), true) == Some(group),
{
    let b0 = group[0];
    let b1 = if group.len() > 1 { group[1] } else { 0u8 };
    let b2 = if group.len() > 2 { group[2] } else { 0u8 };
    let t = triple(b0, b1, b2);
    lemma_digits_bytes(b0 as u32, b1 as u32, b2 as u32);
    lemma_symbol_digit(t / 262144);
    lemma_symbol_digit((t / 4096) % 64);
    lemma_symbol_digit((t / 64) % 64);
    lemma_symbol_digit(t % 64);
    if group.len() == 1 {
        assert(seq![b0] =~= group);
    } else if group.len() == 2 {
        assert(seq![b0, b1] =~= group);
    } else {
        assert(seq![b0, b1, b2] =~= group);
    }
}

/// Each symbol of the alphabet is the symbol of its digit.
proof fn lemma_digit_symbol(c: char)
    requires
        digit_of(c) is Some,
    ensures
        0 <= digit_of(c)->0 < 64,
        symbol(digit_of(c)->0) == c,
        c != PAD,
{
}

/// The three bytes that four digits stand for give the four digits back.
proof fn lemma_bytes_digits(d0: u32, d1: u32, d2: u32, d3: u32)
    by (bit_vector)
    requires
        d0 < 64,
        d1 < 64,
        d2 < 64,
        d3 < 64,
    ensures
        ({
            let b0 = d0 * 4 + d1 / 16;
            let b1 = (d1 % 16) * 16 + d2 / 4;
            let b2 = (d2 % 4) * 64 + d3;
            let t = (b0 * 65536 + b1 * 256 + b2) as u32;
            &&& b0 < 256 && b1 < 256 && b2 < 256
            &&& t == b0 * 65536 + b1 * 256 + b2
            &&& t / 262144 == d0
            &&& (t / 4096) % 64 == d1
            &&& (t / 64) % 64 == d2
            &&& t % 64 == d3
        }),
{
}

/// Four symbols that decode are the encoding of what they decode to.
proof fn lemma_group_text_is_unique(group: Seq<char>, last: bool)
    requires
        group.len() == 4,
        decode_group(group, last) is Some,
    ensures
        1 <= decode_group(group, last)->0.len() <= 3,
        !last ==> decode_group(group, last)->0.len() == 3,
        encode_group(decode_group(group, last)->0) == group,
{
    let bytes = decode_group(group, last)->0;
    lemma_digit_symbol(group[0]);
    lemma_digit_symbol(group[1]);
    let d0 = digit_of(group[0])->0;
    let d1 = digit_of(group[1])->0;
    if group[2] == PAD {
        lemma_bytes_digits(d0 as u32, d1 as u32, 0, 0);
    } else {
        lemma_digit_symbol(group[2]);
        let d2 = digit_of(group[2])->0;
        if group[3] == PAD {
            lemma_bytes_digits(d0 as u32, d1 as u32, d2 as u32, 0);
        } else {
            lemma_digit_symbol(group[3]);
            let d3 = digit_of(group[3])->0;
            lemma_bytes_digits(d0 as u32, d1 as u32, d2 as u32, d3 as u32);
        }
    }
    assert(encode_group(bytes) =~= group);
}

} // verus!
