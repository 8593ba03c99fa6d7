//! The PHC string format, as far as this service produces it:
//! `$<id>$v=<version>$m=<m>,t=<t>,p=<p>$<salt>$<tag>`, with the salt and the
//! tag in base64 without padding.

use crate::ascii::lemma_ascii_bytes;
use vstd::prelude::*;
use vstd::string::*;

verus! {

/// A character of the standard base64 alphabet.
pub open spec fn is_b64_char(c: char) -> bool {
    ||| 'A' <= c <= 'Z'
    ||| 'a' <= c <= 'z'
    ||| '0' <= c <= '9'
    ||| c == '+'
    ||| c == '/'
}

/// Text made of base64 characters only.
pub open spec fn is_b64_text(s: Seq<char>) -> bool {
    forall|i: int| 0 <= i < s.len() ==> is_b64_char(#[trigger] s[i])
}

/// The number of characters that `n` bytes take in base64 without padding.
pub open spec fn b64_chars(n: nat) -> nat {
    (4 * n + 2) / 3
}

/// The base64 character for a value of six bits.
pub open spec fn b64_symbol(value: u8) -> char {
    if value < 26 {
        ((0x41 + value) as u8) as char
    } else if value < 52 {
        ((0x61 + (value - 26)) as u8) as char
    } else if value < 62 {
        ((0x30 + (value - 52)) as u8) as char
    } else if value == 62 {
        '+'
    } else {
        '/'
    }
}

/// The byte at `at`, and zero behind the last byte.
pub open spec fn byte_or_zero(bytes: Seq<u8>, at: int) -> u8 {
    if 0 <= at < bytes.len() {
        bytes[at]
    } else {
        0
    }
}

/// The `at`-th group of six bits of `bytes`, counted from the first bit of
/// the first byte; the last group is filled up with zero bits.
pub open spec fn sextet(bytes: Seq<u8>, at: int) -> u8 {
    let first = byte_or_zero(bytes, 3 * (at / 4));
    let second = byte_or_zero(bytes, 3 * (at / 4) + 1);
    let third = byte_or_zero(bytes, 3 * (at / 4) + 2);
    if at % 4 == 0 {
        first >> 2
    } else if at % 4 == 1 {
        ((first & 0x03) << 4) | (second >> 4)
    } else if at % 4 == 2 {
        ((second & 0x0f) << 2) | (third >> 6)
    } else {
        third & 0x3f
    }
}

/// `bytes` in base64 without padding.
pub open spec fn b64_unpadded(bytes: Seq<u8>) -> Seq<char> {
    Seq::new(b64_chars(bytes.len()), |at: int| b64_symbol(sextet(bytes, at)))
}

/// The character for the digit `d`.
pub open spec fn decimal_digit(d: nat) -> char {
    seq!['0', '1', '2', '3', '4', '5', '6', '7', '8', '9'][d as int]
}

/// `n` in decimal, without sign or leading zeros.
pub open spec fn decimal_text(n: nat) -> Seq<char>
    decreases n,
{
    if n < 10 {
        seq![decimal_digit(n)]
    } else {
        decimal_text(n / 10).push(decimal_digit(n % 10))
    }
}

/// What a PHC string holds before the salt: the algorithm, its version and
/// the three cost parameters, each field closed by `$`.
pub open spec fn phc_header(
    algorithm: Seq<char>,
    version: nat,
    m_cost: nat,
    t_cost: nat,
    p_cost: nat,
) -> Seq<char> {
    seq!['$'] + algorithm + seq!['$', 'v', '='] + decimal_text(version) + seq!['$', 'm', '=']
        + decimal_text(m_cost) + seq![',', 't', '='] + decimal_text(t_cost) + seq![',', 'p', '=']
        + decimal_text(p_cost) + seq!['$']
}

/// A PHC string put together from its header and its two encoded fields.
pub open spec fn phc_text(header: Seq<char>, salt: Seq<char>, tag: Seq<char>) -> Seq<char> {
    header + salt + seq!['$'] + tag
}

/// The salt field of a PHC string whose header has `header_len` characters.
pub open spec fn phc_salt_field(text: Seq<char>, header_len: nat, salt_chars: nat) -> Seq<char> {
    text.subrange(header_len as int, (header_len + salt_chars) as int)
}

/// The tag field of a PHC string: its last `tag_chars` characters.
pub open spec fn phc_tag_field(text: Seq<char>, tag_chars: nat) -> Seq<char> {
    text.subrange(text.len() - tag_chars, text.len() as int)
}

/// `text` is `header`, then a salt of `salt_chars` base64 characters, a `$`,
/// and a tag of `tag_chars` base64 characters, and nothing else.
pub open spec fn is_phc(
    text: Seq<char>,
    header: Seq<char>,
    salt_chars: nat,
    tag_chars: nat,
) -> bool {
    &&& text.len() == header.len() + salt_chars + 1 + tag_chars
    &&& text.subrange(0, header.len() as int) == header
    &&& is_b64_text(phc_salt_field(text, header.len(), salt_chars))
    &&& text[(header.len() + salt_chars) as int] == '$'
    &&& is_b64_text(phc_tag_field(text, tag_chars))
}

/// A string of the shape `is_phc` is its header, its salt field, `$` and its
/// tag field, in that order.
pub proof fn lemma_phc_fields(text: Seq<char>, header: Seq<char>, salt_chars: nat, tag_chars: nat)
    requires
        is_phc(text, header, salt_chars, tag_chars),
    ensures
        text == phc_text(
            header,
            phc_salt_field(text, header.len(), salt_chars),
            phc_tag_field(text, tag_chars),
        ),
{
    let salt = phc_salt_field(text, header.len(), salt_chars);
    let tag = phc_tag_field(text, tag_chars);
    assert(text =~= text.subrange(0, header.len() as int) + salt + seq!['$'] + tag);
}

/// A header followed by two base64 fields with `$` between them has the
/// shape `is_phc`, and the fields are found again at their places.
pub proof fn lemma_phc_text_shape(header: Seq<char>, salt: Seq<char>, tag: Seq<char>)
    requires
        is_b64_text(salt),
        is_b64_text(tag),
    ensures
        is_phc(phc_text(header, salt, tag), header, salt.len(), tag.len()),
        phc_salt_field(phc_text(header, salt, tag), header.len(), salt.len()) == salt,
        phc_tag_field(phc_text(header, salt, tag), tag.len()) == tag,
{
    let text = phc_text(header, salt, tag);
    assert(text.subrange(0, header.len() as int) =~= header);
    assert(phc_salt_field(text, header.len(), salt.len()) =~= salt);
    assert(phc_tag_field(text, tag.len()) =~= tag);
}

/// Text of the shape `is_phc` under an ASCII header is ASCII.
pub proof fn lemma_phc_chars_ascii(
    text: Seq<char>,
    header: Seq<char>,
    salt_chars: nat,
    tag_chars: nat,
)
    requires
        is_phc(text, header, salt_chars, tag_chars),
        vstd::utf8::is_ascii_chars(header),
    ensures
        vstd::utf8::is_ascii_chars(text),
{
    let salt = phc_salt_field(text, header.len(), salt_chars);
    let tag = phc_tag_field(text, tag_chars);
    assert forall|i: int| 0 <= i < text.len() implies '\0' <= #[trigger] text[i] <= '\u{7f}' by {
        if i < header.len() {
            assert(text.subrange(0, header.len() as int)[i] == text[i]);
        } else if i < header.len() + salt_chars {
            assert(salt[i - header.len()] == text[i]);
        } else if i > header.len() + salt_chars {
            assert(tag[i - header.len() - salt_chars - 1] == text[i]);
        }
    }
}

/// A group of six bits is a number under 64.
proof fn lemma_sextet_bound(bytes: Seq<u8>, at: int)
    ensures
        sextet(bytes, at) < 64,
{
    let first = byte_or_zero(bytes, 3 * (at / 4));
    let second = byte_or_zero(bytes, 3 * (at / 4) + 1);
    let third = byte_or_zero(bytes, 3 * (at / 4) + 2);
    assert(first >> 2 < 64) by (bit_vector);
    assert(((first & 0x03) << 4) | (second >> 4) < 64) by (bit_vector);
    assert(((second & 0x0f) << 2) | (third >> 6) < 64) by (bit_vector);
    assert(third & 0x3f < 64) by (bit_vector);
}

/// Base64 without padding is made of base64 characters.
pub proof fn lemma_b64_unpadded_is_text(bytes: Seq<u8>)
    ensures
        is_b64_text(b64_unpadded(bytes)),
        b64_unpadded(bytes).len() == b64_chars(bytes.len()),
{
    assert forall|at: int| 0 <= at < b64_unpadded(bytes).len() implies is_b64_char(
        #[trigger] b64_unpadded(bytes)[at],
    ) by {
        lemma_sextet_bound(bytes, at);
    }
}

/// Base64 without padding tells byte sequences of one length apart.
pub proof fn lemma_b64_unpadded_injective(first: Seq<u8>, second: Seq<u8>)
    requires
        first.len() == second.len(),
        b64_unpadded(first) == b64_unpadded(second),
    ensures
        first == second,
{
    assert forall|at: int| 0 <= at < first.len() implies first[at] == second[at] by {
        let group = at / 3;
        assert forall|k: int| 4 * group <= k < 4 * group + 4 && k < b64_chars(first.len())
            implies sextet(first, k) == sextet(second, k) by {
            lemma_sextet_bound(first, k);
            lemma_sextet_bound(second, k);
            assert(b64_unpadded(first)[k] == b64_symbol(sextet(first, k)));
            assert(b64_unpadded(second)[k] == b64_symbol(sextet(second, k)));
        }
        let a0 = byte_or_zero(first, 3 * group);
        let a1 = byte_or_zero(first, 3 * group + 1);
        let a2 = byte_or_zero(first, 3 * group + 2);
        let b0 = byte_or_zero(second, 3 * group);
        let b1 = byte_or_zero(second, 3 * group + 1);
        let b2 = byte_or_zero(second, 3 * group + 2);
        if at % 3 == 0 {
            assert(sextet(first, 4 * group) == sextet(second, 4 * group));
            assert(sextet(first, 4 * group + 1) == sextet(second, 4 * group + 1));
            assert(a0 == b0) by (bit_vector)
                requires
                    a0 >> 2 == b0 >> 2,
                    ((a0 & 0x03) << 4) | (a1 >> 4) == ((b0 & 0x03) << 4) | (b1 >> 4),
            ;
        } else if at % 3 == 1 {
            assert(sextet(first, 4 * group + 1) == sextet(second, 4 * group + 1));
            assert(sextet(first, 4 * group + 2) == sextet(second, 4 * group + 2));
            assert(a1 == b1) by (bit_vector)
                requires
                    ((a0 & 0x03) << 4) | (a1 >> 4) == ((b0 & 0x03) << 4) | (b1 >> 4),
                    ((a1 & 0x0f) << 2) | (a2 >> 6) == ((b1 & 0x0f) << 2) | (b2 >> 6),
            ;
        } else {
            assert(sextet(first, 4 * group + 2) == sextet(second, 4 * group + 2));
            assert(sextet(first, 4 * group + 3) == sextet(second, 4 * group + 3));
            assert(a2 == b2) by (bit_vector)
                requires
                    ((a1 & 0x0f) << 2) | (a2 >> 6) == ((b1 & 0x0f) << 2) | (b2 >> 6),
                    a2 & 0x3f == b2 & 0x3f,
            ;
        }
    }
    assert(first =~= second);
}

fn is_b64_byte(b: u8) -> (ok: bool)
    ensures
        ok == is_b64_char(b as char),
{
    (0x41 <= b && b <= 0x5a) || (0x61 <= b && b <= 0x7a) || (0x30 <= b && b <= 0x39) || b == 0x2b
        || b == 0x2f
}

fn all_b64_bytes(bytes: &[u8], from: usize, to: usize) -> (ok: bool)
    requires
        from <= to <= bytes@.len(),
    ensures
        ok == forall|i: int| from <= i < to ==> is_b64_char(#[trigger] bytes@[i] as char),
{
    let mut at: usize = from;
    while at < to
        invariant
            from <= at <= to <= bytes@.len(),
            forall|i: int| from <= i < at ==> is_b64_char(#[trigger] bytes@[i] as char),
        decreases to - at,
    {
        if !is_b64_byte(bytes[at]) {
            return false;
        }
        at += 1;
    }
    true
}

fn starts_with_bytes(bytes: &[u8], prefix: &[u8]) -> (ok: bool)
    ensures
        ok == (prefix@.len() <= bytes@.len() && bytes@.subrange(0, prefix@.len() as int)
            == prefix@),
{
    if prefix.len() > bytes.len() {
        return false;
    }
    let mut at: usize = 0;
    while at < prefix.len()
        invariant
            at <= prefix@.len() <= bytes@.len(),
            forall|i: int| 0 <= i < at ==> bytes@[i] == prefix@[i],
        decreases prefix@.len() - at,
    {
        if bytes[at] != prefix[at] {
            assert(bytes@.subrange(0, prefix@.len() as int)[at as int] == bytes@[at as int]);
            return false;
        }
        at += 1;
    }
    assert(bytes@.subrange(0, prefix@.len() as int) =~= prefix@);
    true
}

/// Tests whether `text` is `header` followed by a salt of `salt_chars` and a
/// tag of `tag_chars` base64 characters.
pub(crate) fn has_phc_shape(
    text: &str,
    header: &str,
    salt_chars: usize,
    tag_chars: usize,
) -> (ok: bool)
    requires
        header.is_ascii(),
    ensures
        ok == is_phc(text@, header@, salt_chars as nat, tag_chars as nat),
{
    if !text.is_ascii() {
        proof {
            if is_phc(text@, header@, salt_chars as nat, tag_chars as nat) {
                lemma_phc_chars_ascii(text@, header@, salt_chars as nat, tag_chars as nat);
            }
        }
        return false;
    }
    let bytes = text.as_bytes();
    let head = header.as_bytes();
    proof {
        lemma_ascii_bytes(text);
        lemma_ascii_bytes(header);
    }
    let len = bytes.len();
    let head_len = head.len();
    if len < head_len || len - head_len < salt_chars || len - head_len - salt_chars < 1 || len
        - head_len - salt_chars - 1 != tag_chars {
        return false;
    }
    let salt_end = head_len + salt_chars;
    if !starts_with_bytes(bytes, head) {
        proof {
            if text@.subrange(0, header@.len() as int) == header@ {
                assert(bytes@.subrange(0, head@.len() as int) =~= head@);
            }
        }
        return false;
    }
    assert(text@.subrange(0, header@.len() as int) =~= header@) by {
        assert forall|i: int| 0 <= i < header@.len() implies text@[i] == header@[i] by {
            assert(bytes@.subrange(0, head@.len() as int)[i] == head@[i]);
        }
    }
    let ghost salt = phc_salt_field(text@, header@.len(), salt_chars as nat);
    let ghost tag = phc_tag_field(text@, tag_chars as nat);
    if !all_b64_bytes(bytes, head_len, salt_end) {
        proof {
            if is_b64_text(salt) {
                assert forall|i: int| head_len <= i < salt_end implies is_b64_char(
                    #[trigger] bytes@[i] as char,
                ) by {
                    assert(salt[i - head_len] == text@[i]);
                }
            }
        }
        return false;
    }
    assert(is_b64_text(salt)) by {
        assert forall|j: int| 0 <= j < salt.len() implies is_b64_char(#[trigger] salt[j]) by {
            assert(is_b64_char(bytes@[head_len + j] as char));
        }
    }
    if bytes[salt_end] != 0x24 {
        return false;
    }
    if !all_b64_bytes(bytes, salt_end + 1, len) {
        proof {
            if is_b64_text(tag) {
                assert forall|i: int| salt_end + 1 <= i < len implies is_b64_char(
                    #[trigger] bytes@[i] as char,
                ) by {
                    assert(tag[i - salt_end - 1] == text@[i]);
                }
            }
        }
        return false;
    }
    assert(is_b64_text(tag)) by {
        assert forall|j: int| 0 <= j < tag.len() implies is_b64_char(#[trigger] tag[j]) by {
            assert(is_b64_char(bytes@[salt_end + 1 + j] as char));
        }
    }
    true
}

fn b64_symbol_byte(value: u8) -> (symbol: u8)
    requires
        value < 64,
    ensures
        symbol as char == b64_symbol(value),
        symbol < 128,
{
    if value < 26 {
        0x41 + value
    } else if value < 52 {
        0x61 + (value - 26)
    } else if value < 62 {
        0x30 + (value - 52)
    } else if value == 62 {
        0x2b
    } else {
        0x2f
    }
}

fn sextet_at(bytes: &[u8], at: usize) -> (value: u8)
    ensures
        value == sextet(bytes@, at as int),
        value < 64,
{
    let len = bytes.len();
    let base = 3 * (at / 4);
    let first = if base < len {
        bytes[base]
    } else {
        0
    };
    let second = if base < len && len - base > 1 {
        bytes[base + 1]
    } else {
        0
    };
    let third = if base < len && len - base > 2 {
        bytes[base + 2]
    } else {
        0
    };
    proof {
        lemma_sextet_bound(bytes@, at as int);
    }
    if at % 4 == 0 {
        first >> 2
    } else if at % 4 == 1 {
        ((first & 0x03) << 4) | (second >> 4)
    } else if at % 4 == 2 {
        ((second & 0x0f) << 2) | (third >> 6)
    } else {
        third & 0x3f
    }
}

/// Tests whether the `chars` characters of `text` from `from` on are `bytes`
/// in base64 without padding.
pub(crate) fn field_encodes(text: &str, from: usize, chars: usize, bytes: &[u8]) -> (ok: bool)
    requires
        text.is_ascii(),
        from + chars <= text@.len(),
        chars == b64_chars(bytes@.len()),
    ensures
        ok == (text@.subrange(from as int, from + chars) == b64_unpadded(bytes@)),
{
    let text_bytes = text.as_bytes();
    proof {
        lemma_ascii_bytes(text);
    }
    let text_len = text_bytes.len();
    let ghost field = text@.subrange(from as int, from + chars);
    let ghost encoded = b64_unpadded(bytes@);
    let mut at: usize = 0;
    while at < chars
        invariant
            at <= chars,
            text.is_ascii(),
            text_bytes@ == text.spec_bytes(),
            from + chars <= text_len == text@.len(),
            field == text@.subrange(from as int, from + chars),
            encoded == b64_unpadded(bytes@),
            encoded.len() == chars,
            forall|k: int| 0 <= k < at ==> field[k] == encoded[k],
        decreases chars - at,
    {
        proof {
            lemma_ascii_bytes(text);
        }
        let symbol = b64_symbol_byte(sextet_at(bytes, at));
        if text_bytes[from + at] != symbol {
            assert(field[at as int] == text@[from + at]);
            assert(encoded[at as int] == symbol as char);
            return false;
        }
        assert(field[at as int] == text@[from + at]);
        assert(encoded[at as int] == symbol as char);
        at += 1;
    }
    assert(field =~= encoded);
    true
}

} // verus!
