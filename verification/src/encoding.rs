//! Base64, hexadecimal and UTF-8.

use base64::engine::general_purpose::STANDARD;
use base64::Engine;
use vstd::prelude::*;
use vstd::utf8::*;

use crate::text;

verus! {

/// The lower-case hexadecimal digit of a value below sixteen.
pub open spec fn hex_digit(v: int) -> char {
    if v < 10 {
        ('0' as int + v) as char
    } else {
        ('a' as int + v - 10) as char
    }
}

/// Two lower-case hexadecimal digits for each byte, the high half first.
pub open spec fn hex_text(bytes: Seq<u8>) -> Seq<char> {
    Seq::new(
        2 * bytes.len(),
        |i: int|
            if i % 2 == 0 {
                hex_digit(bytes[i / 2] as int / 16)
            } else {
                hex_digit(bytes[i / 2] as int % 16)
            },
    )
}

/// `hex::encode`: two lower-case hexadecimal digits for each byte, in order.
#[verifier::external_body]
pub(crate) fn hex_encode(bytes: &[u8]) -> (text: String)
    ensures
        text@ == hex_text(bytes@),
{
    hex::encode(bytes)
}

/// Different bytes have different hexadecimal texts.
pub proof fn law_hex_is_injective(a: Seq<u8>, b: Seq<u8>)
    requires
        hex_text(a) == hex_text(b),
    ensures
        a == b,
{
    assert(hex_text(a).len() == 2 * a.len());
    assert(hex_text(b).len() == 2 * b.len());
    assert forall|i: int| 0 <= i < a.len() implies a[i] == b[i] by {
        assert(hex_text(a)[2 * i] == hex_digit(a[i] as int / 16));
        assert(hex_text(b)[2 * i] == hex_digit(b[i] as int / 16));
        assert(hex_text(a)[2 * i + 1] == hex_digit(a[i] as int % 16));
        assert(hex_text(b)[2 * i + 1] == hex_digit(b[i] as int % 16));
    }
    assert(a =~= b);
}

/// The character that stands for six bits in Base64.
#[verifier::opaque]
pub open spec fn base64_digit(v: int) -> char {
    if v < 26 {
        ('A' as int + v) as char
    } else if v < 52 {
        ('a' as int + v - 26) as char
    } else if v < 62 {
        ('0' as int + v - 52) as char
    } else if v == 62 {
        '+'
    } else {
        '/'
    }
}

/// Base64 with the standard alphabet and padding: each three bytes become four
/// characters, and a rest of one or two bytes is filled up with `=`.
pub open spec fn base64_text(bytes: Seq<u8>) -> Seq<char>
    decreases bytes.len(),
{
    if bytes.len() == 0 {
        seq![]
    } else if bytes.len() == 1 {
        let v = bytes[0] as int * 16;
        seq![base64_digit(v / 64), base64_digit(v % 64), '=', '=']
    } else if bytes.len() == 2 {
        let v = (bytes[0] as int * 256 + bytes[1] as int) * 4;
        seq![base64_digit(v / 4096), base64_digit(v / 64 % 64), base64_digit(v % 64), '=']
    } else {
        let v = bytes[0] as int * 65536 + bytes[1] as int * 256 + bytes[2] as int;
        seq![
            base64_digit(v / 262144),
            base64_digit(v / 4096 % 64),
            base64_digit(v / 64 % 64),
            base64_digit(v % 64),
        ] + base64_text(bytes.skip(3))
    }
}

/// What the Base64 decoder says of a text that it refuses.
pub uninterp spec fn base64_complaint(text: Seq<char>) -> Seq<char>;

/// `STANDARD.encode` of the crate `base64`: the standard alphabet, with padding.
#[verifier::external_body]
pub(crate) fn base64_encode(bytes: &[u8]) -> (text: String)
    ensures
        text@ == base64_text(bytes@),
{
    STANDARD.encode(bytes)
}

/// `STANDARD.decode` of the crate `base64`. It accepts a text only where it is
/// the encoding of some bytes, padding and unused bits included, and gives
/// those bytes; the wording of a refusal depends on the text alone.
#[verifier::external_body]
fn base64_decode(text: &str) -> (r: Result<Vec<u8>, String>)
    ensures
        match r {
            Ok(bytes) => base64_text(bytes@) == text@,
            Err(e) => (forall|b: Seq<u8>| #[trigger] base64_text(b) != text@) && e@
                == base64_complaint(text@),
        },
{
    STANDARD.decode(text).map_err(|e| e.to_string())
}

/// The bytes that a Base64 text stands for.
pub open spec fn base64_bytes(text: Seq<char>) -> Option<Seq<u8>> {
    if exists|b: Seq<u8>| #[trigger] base64_text(b) == text {
        Some(choose|b: Seq<u8>| #[trigger] base64_text(b) == text)
    } else {
        None
    }
}

/// What decoding a Base64 text gives: its bytes, or the decoder's complaint.
pub open spec fn base64_result(text: Seq<char>) -> Result<Seq<u8>, Seq<char>> {
    match base64_bytes(text) {
        Some(bytes) => Ok(bytes),
        None => Err(base64_complaint(text)),
    }
}

proof fn lemma_base64_digit(v: int, w: int)
    requires
        0 <= v < 64,
        0 <= w < 64,
    ensures
        base64_digit(v) == base64_digit(w) ==> v == w,
        base64_digit(v) != '=',
{
    reveal(base64_digit);
}

/// Each three bytes, and a rest, take four characters.
pub proof fn lemma_base64_len(bytes: Seq<u8>)
    ensures
        base64_text(bytes).len() == (bytes.len() + 2) / 3 * 4,
    decreases bytes.len(),
{
    if bytes.len() >= 3 {
        lemma_base64_len(bytes.skip(3));
    }
}

/// A number of twenty-four bits is made of its four groups of six.
proof fn lemma_sextets(v: int)
    requires
        0 <= v < 16777216,
    ensures
        0 <= v / 262144 < 64,
        v == (v / 262144) * 262144 + (v / 4096 % 64) * 4096 + (v / 64 % 64) * 64 + v % 64,
{
    assert(v == (v / 64) * 64 + v % 64);
    assert(v / 64 == (v / 4096) * 64 + v / 64 % 64);
    assert(v / 4096 == (v / 262144) * 64 + v / 4096 % 64);
}

/// The four characters of three bytes determine them.
proof fn lemma_base64_block(v: int, w: int)
    requires
        0 <= v < 16777216,
        0 <= w < 16777216,
        base64_digit(v / 262144) == base64_digit(w / 262144),
        base64_digit(v / 4096 % 64) == base64_digit(w / 4096 % 64),
        base64_digit(v / 64 % 64) == base64_digit(w / 64 % 64),
        base64_digit(v % 64) == base64_digit(w % 64),
    ensures
        v == w,
{
    lemma_sextets(v);
    lemma_sextets(w);
    lemma_base64_digit(v / 262144, w / 262144);
    lemma_base64_digit(v / 4096 % 64, w / 4096 % 64);
    lemma_base64_digit(v / 64 % 64, w / 64 % 64);
    lemma_base64_digit(v % 64, w % 64);
}

/// The padding of an encoding tells how many bytes its last block holds.
proof fn lemma_base64_padding(bytes: Seq<u8>)
    requires
        bytes.len() > 0,
    ensures
        base64_text(bytes)[2] == '=' <==> bytes.len() == 1,
        base64_text(bytes)[3] == '=' <==> bytes.len() <= 2,
{
    lemma_base64_head(bytes);
    let v = base64_block(bytes);
    lemma_base64_digit(v / 64 % 64, 0);
    lemma_base64_digit(v % 64, 0);
}

/// Encodings that begin alike come from bytes that begin alike.
proof fn lemma_base64_first_block(a: Seq<u8>, b: Seq<u8>)
    requires
        a.len() > 0,
        b.len() > 0,
        base64_text(a).take(4) == base64_text(b).take(4),
    ensures
        a.len() == 1 <==> b.len() == 1,
        a.len() <= 2 <==> b.len() <= 2,
        base64_block(a) == base64_block(b),
{
    lemma_base64_head(a);
    lemma_base64_head(b);
    lemma_base64_padding(a);
    lemma_base64_padding(b);
    let s = base64_text(a).take(4);
    let t = base64_text(b).take(4);
    assert(s[0] == base64_text(a)[0] && s[1] == base64_text(a)[1]);
    assert(s[2] == base64_text(a)[2] && s[3] == base64_text(a)[3]);
    assert(t[0] == base64_text(b)[0] && t[1] == base64_text(b)[1]);
    assert(t[2] == base64_text(b)[2] && t[3] == base64_text(b)[3]);
    lemma_base64_zeros(a);
    lemma_base64_zeros(b);
    lemma_base64_block(base64_block(a), base64_block(b));
}

/// The bits for missing bytes are zero.
proof fn lemma_base64_zeros(bytes: Seq<u8>)
    requires
        bytes.len() > 0,
    ensures
        bytes.len() == 1 ==> base64_block(bytes) / 64 % 64 == 0,
        bytes.len() <= 2 ==> base64_block(bytes) % 64 == 0,
{
}

/// The number of a block determines its bytes.
proof fn lemma_base64_block_bytes(a: Seq<u8>, b: Seq<u8>)
    requires
        a.len() > 0,
        b.len() > 0,
        a.len() == 1 <==> b.len() == 1,
        a.len() <= 2 <==> b.len() <= 2,
        base64_block(a) == base64_block(b),
    ensures
        forall|i: int| 0 <= i < 3 && i < a.len() ==> #[trigger] a[i] == b[i],
{
}

/// Different bytes have different Base64 texts.
pub proof fn law_base64_is_injective(a: Seq<u8>, b: Seq<u8>)
    requires
        base64_text(a) == base64_text(b),
    ensures
        a == b,
    decreases a.len(),
{
    lemma_base64_len(a);
    lemma_base64_len(b);
    if a.len() == 0 || b.len() == 0 {
        assert(a =~= b);
    } else {
        lemma_base64_first_block(a, b);
        lemma_base64_block_bytes(a, b);
        if a.len() >= 3 {
            assert(base64_text(a).skip(4) =~= base64_text(a.skip(3)));
            assert(base64_text(b).skip(4) =~= base64_text(b.skip(3)));
            law_base64_is_injective(a.skip(3), b.skip(3));
            assert forall|i: int| 0 <= i < a.len() implies a[i] == b[i] by {
                if i >= 3 {
                    assert(a[i] == a.skip(3)[i - 3]);
                    assert(b[i] == b.skip(3)[i - 3]);
                }
            }
            assert(a.len() == a.skip(3).len() + 3);
            assert(b.len() == b.skip(3).len() + 3);
        }
        assert(a =~= b);
    }
}

/// The first three bytes as one number, with zeros for the missing ones.
spec fn base64_block(bytes: Seq<u8>) -> int {
    if bytes.len() == 1 {
        bytes[0] as int * 65536
    } else if bytes.len() == 2 {
        bytes[0] as int * 65536 + bytes[1] as int * 256
    } else {
        bytes[0] as int * 65536 + bytes[1] as int * 256 + bytes[2] as int
    }
}

/// The first four characters of an encoding, in terms of that number.
proof fn lemma_base64_head(bytes: Seq<u8>)
    requires
        bytes.len() > 0,
    ensures
        0 <= base64_block(bytes) < 16777216,
        base64_text(bytes).len() >= 4,
        base64_text(bytes)[0] == base64_digit(base64_block(bytes) / 262144),
        base64_text(bytes)[1] == base64_digit(base64_block(bytes) / 4096 % 64),
        base64_text(bytes)[2] == (if bytes.len() == 1 {
            '='
        } else {
            base64_digit(base64_block(bytes) / 64 % 64)
        }),
        base64_text(bytes)[3] == (if bytes.len() <= 2 {
            '='
        } else {
            base64_digit(base64_block(bytes) % 64)
        }),
{
    lemma_base64_len(bytes);
    if bytes.len() == 1 {
        let x = bytes[0] as int;
        assert(x * 16 / 64 == x * 65536 / 262144);
        assert(x * 16 % 64 == x * 65536 / 4096 % 64);
    } else if bytes.len() == 2 {
        let x = bytes[0] as int * 256 + bytes[1] as int;
        assert(x * 4 / 4096 == x * 256 / 262144);
        assert(x * 4 / 64 % 64 == x * 256 / 4096 % 64);
        assert(x * 4 % 64 == x * 256 / 64 % 64);
    }
}

/// Decoding undoes encoding.
pub proof fn law_base64_round_trip(bytes: Seq<u8>)
    ensures
        base64_result(base64_text(bytes)) == Ok::<Seq<u8>, Seq<char>>(bytes),
{
    let found = choose|b: Seq<u8>| #[trigger] base64_text(b) == base64_text(bytes);
    law_base64_is_injective(found, bytes);
}

proof fn lemma_base64_no_space(bytes: Seq<u8>)
    ensures
        forall|i: int|
            0 <= i < base64_text(bytes).len() ==> !text::white_space(
                #[trigger] base64_text(bytes)[i],
            ),
    decreases bytes.len(),
{
    reveal(base64_digit);
    if bytes.len() >= 3 {
        lemma_base64_no_space(bytes.skip(3));
        let v = bytes[0] as int * 65536 + bytes[1] as int * 256 + bytes[2] as int;
        let head = seq![
            base64_digit(v / 262144),
            base64_digit(v / 4096 % 64),
            base64_digit(v / 64 % 64),
            base64_digit(v % 64),
        ];
        let tail = base64_text(bytes.skip(3));
        assert forall|i: int| 0 <= i < base64_text(bytes).len() implies !text::white_space(
            #[trigger] base64_text(bytes)[i],
        ) by {
            if i < 4 {
                assert(base64_text(bytes)[i] == head[i]);
            } else {
                assert(base64_text(bytes)[i] == tail[i - 4]);
            }
        }
    }
}

/// Trimming does nothing to an encoding, so decoding a trimmed one undoes
/// encoding too.
pub proof fn law_base64_survives_trimming(bytes: Seq<u8>)
    ensures
        text::trimmed(base64_text(bytes)) == base64_text(bytes),
        base64_result(text::trimmed(base64_text(bytes))) == Ok::<Seq<u8>, Seq<char>>(bytes),
{
    lemma_base64_no_space(bytes);
    law_base64_round_trip(bytes);
}

/// The bytes that a Base64 text stands for, or the decoder's complaint.
pub fn decode_base64(text: &str) -> (r: Result<Vec<u8>, String>)
    ensures
        text::to_bytes_result(r) == base64_result(text@),
{
    let r = base64_decode(text);
    proof {
        if let Ok(bytes) = &r {
            law_base64_round_trip(bytes@);
        }
    }
    r
}

/// What the UTF-8 decoder says of bytes that are no text.
pub uninterp spec fn utf8_complaint(bytes: Seq<u8>) -> Seq<char>;

/// What decoding bytes as UTF-8 gives: their text, or the decoder's complaint.
pub open spec fn utf8_result(bytes: Seq<u8>) -> Result<Seq<char>, Seq<char>> {
    if valid_utf8(bytes) {
        Ok(decode_utf8(bytes))
    } else {
        Err(utf8_complaint(bytes))
    }
}

/// `std::str::from_utf8`: the text of valid UTF-8, an error for anything else.
/// The wording of the error depends on the bytes alone.
#[verifier::external_body]
pub(crate) fn utf8_text(bytes: &[u8]) -> (r: Result<String, String>)
    ensures
        match r {
            Ok(text) => valid_utf8(bytes@) && text@ == decode_utf8(bytes@),
            Err(e) => !valid_utf8(bytes@) && e@ == utf8_complaint(bytes@),
        },
{
    std::str::from_utf8(bytes).map(|s| s.to_string()).map_err(|e| e.to_string())
}

/// What becomes of bytes that are no UTF-8 where each faulty part gives way to a
/// replacement character.
pub uninterp spec fn utf8_patched(bytes: Seq<u8>) -> Seq<char>;

/// Bytes as text: valid UTF-8 as it is, anything else with replacement
/// characters.
pub open spec fn lossy(bytes: Seq<u8>) -> Seq<char> {
    if valid_utf8(bytes) {
        decode_utf8(bytes)
    } else {
        utf8_patched(bytes)
    }
}

/// `String::from_utf8_lossy`: valid UTF-8 is taken as it is, and the text of
/// anything else depends on the bytes alone.
#[verifier::external_body]
pub(crate) fn lossy_text(bytes: &[u8]) -> (text: String)
    ensures
        text@ == (if valid_utf8(bytes@) {
            decode_utf8(bytes@)
        } else {
            utf8_patched(bytes@)
        }),
{
    String::from_utf8_lossy(bytes).into_owned()
}

/// The lower-case form of a text that is not all ASCII.
pub uninterp spec fn unicode_lowercase(s: Seq<char>) -> Seq<char>;

/// A text in lower case.
pub open spec fn lowercase(s: Seq<char>) -> Seq<char> {
    if is_ascii_chars(s) {
        text::ascii_lowered(s)
    } else {
        unicode_lowercase(s)
    }
}

/// `str::to_lowercase`: on an ASCII text the capitals become small letters and
/// nothing else changes; on any other text the result depends on it alone.
#[verifier::external_body]
pub(crate) fn to_lowercase(s: &str) -> (r: String)
    ensures
        r@ == (if is_ascii_chars(s@) {
            text::ascii_lowered(s@)
        } else {
            unicode_lowercase(s@)
        }),
{
    s.to_lowercase()
}

/// A text in double quotes, with escapes.
pub uninterp spec fn quoted(s: Seq<char>) -> Seq<char>;

/// The form that `{:?}` gives a text.
#[verifier::external_body]
pub(crate) fn quote(s: &str) -> (r: String)
    ensures
        r@ == quoted(s@),
{
    format!("{:?}", s)
}

/// Each byte becomes two digits, the first for its sixteens and the second for the
/// rest, and bytes behind others become digits behind theirs.
pub proof fn law_hex_digits(a: Seq<u8>, b: u8)
    ensures
        hex_text(seq![]) == Seq::<char>::empty(),
        hex_text(a.push(b)) == hex_text(a) + seq![
            "0123456789abcdef"@[b as int / 16],
            "0123456789abcdef"@[b as int % 16],
        ],
{
    reveal_strlit("0123456789abcdef");
    let s = hex_text(a.push(b));
    let t = hex_text(a) + seq![
        "0123456789abcdef"@[b as int / 16],
        "0123456789abcdef"@[b as int % 16],
    ];
    assert(hex_text(seq![]) =~= Seq::<char>::empty());
    assert(s.len() == t.len());
    assert forall|i: int| 0 <= i < s.len() implies s[i] == t[i] by {
        if i < 2 * a.len() {
            assert(a.push(b)[i / 2] == a[i / 2]);
        } else {
            assert(i / 2 == a.len());
        }
    }
    assert(s =~= t);
}

/// The UTF-8 of a text behind another is its bytes behind those of the other.
pub proof fn law_utf8_joins(a: Seq<char>, b: Seq<char>)
    ensures
        encode_utf8(a + b) == encode_utf8(a) + encode_utf8(b),
    decreases a.len(),
{
    if a.len() == 0 {
        assert(a + b =~= b);
        assert(encode_utf8(a) + encode_utf8(b) =~= encode_utf8(b));
    } else {
        law_utf8_joins(a.drop_first(), b);
        assert((a + b).drop_first() =~= a.drop_first() + b);
        assert(encode_utf8(a + b) =~= encode_utf8(a) + encode_utf8(b));
    }
}

/// Bytes are read as the text whose UTF-8 they are, where there is one, and refused
/// only where there is none.
pub proof fn law_text_reads_back(bytes: Seq<u8>, s: Seq<char>)
    ensures
        utf8_result(bytes) == Ok::<Seq<char>, Seq<char>>(s) <==> bytes == encode_utf8(s),
        bytes == encode_utf8(s) ==> lossy(bytes) == s,
        utf8_result(bytes) is Err <==> !valid_utf8(bytes),
{
    encode_utf8_valid_utf8(s);
    encode_utf8_decode_utf8(s);
    if valid_utf8(bytes) {
        decode_utf8_encode_utf8(bytes);
    }
}

/// Base64 is decoded to the bytes that it was made of, and refused only where it was
/// made of none.
pub proof fn law_base64_reads_back(s: Seq<char>, bytes: Seq<u8>)
    ensures
        base64_result(s) == Ok::<Seq<u8>, Seq<char>>(bytes) <==> s == base64_text(bytes),
{
    law_base64_round_trip(bytes);
}

/// Six bits stand for their place in the alphabet; three bytes are their twenty-four bits
/// in groups of six, and what follows them follows.
pub proof fn law_base64_groups(a: u8, b: u8, c: u8, rest: Seq<u8>, v: int)
    requires
        0 <= v < 64,
    ensures
        base64_digit(v) == "ABCDEFGHIJKLMNOPQRSTUVWXYZabcdefghijklmnopqrstuvwxyz0123456789+/"@[v],
        base64_text(seq![a, b, c] + rest) == seq![
            base64_digit(a as int / 4),
            base64_digit(a as int % 4 * 16 + b as int / 16),
            base64_digit(b as int % 16 * 4 + c as int / 64),
            base64_digit(c as int % 64),
        ] + base64_text(rest),
        base64_text(seq![a, b]) == seq![
            base64_digit(a as int / 4),
            base64_digit(a as int % 4 * 16 + b as int / 16),
            base64_digit(b as int % 16 * 4),
            '=',
        ],
        base64_text(seq![a]) == seq![
            base64_digit(a as int / 4),
            base64_digit(a as int % 4 * 16),
            '=',
            '=',
        ],
        base64_text(seq![]) == Seq::<char>::empty(),
{
    reveal(base64_digit);
    reveal_strlit("ABCDEFGHIJKLMNOPQRSTUVWXYZabcdefghijklmnopqrstuvwxyz0123456789+/");
    let all = seq![a, b, c] + rest;
    assert(all.skip(3) =~= rest);
    assert(all[0] == a && all[1] == b && all[2] == c);
    let w = a as int * 65536 + b as int * 256 + c as int;
    assert(w / 262144 == a as int / 4);
    assert(w / 4096 % 64 == a as int % 4 * 16 + b as int / 16);
    assert(w / 64 % 64 == b as int % 16 * 4 + c as int / 64);
    assert(w % 64 == c as int % 64);
}

} // verus!
