//! Percent-encoding of parameter values and signatures.
//!
//! The exchange verifies signatures against its own canonicalization, which
//! percent-encodes every byte outside the printable ASCII range, the reserved
//! characters of a URI user-info/query segment, `%` itself, and additionally
//! `+` and `,`.  Encoding works on the UTF-8 bytes of the value; each encoded
//! byte becomes `%` followed by two uppercase hex digits.  Because `%` is in
//! the set, encoding is applied exactly once per value: re-encoding an
//! encoded value always changes it, and decoding recovers the source.

use vstd::prelude::*;

verus! {

use vstd::string::*;
use vstd::utf8::encode_utf8;

/// The byte values that percent-encoding replaces: every byte outside
/// `0x20..=0x7e`, the reserved bytes of a URI user-info/query segment
/// (space, `"`, `#`, `<`, `>`, `` ` ``, `?`, `{`, `}`, `/`, `:`, `;`, `=`,
/// `@`, `[`, `\`, `]`, `^`, `|`), the escape byte `%` itself — so that a
/// value is encoded exactly once and decoding can recover it — and the two
/// extra bytes `+` and `,` that the exchange's verifier demands.
pub open spec fn must_encode(b: u8) -> bool {
    b < 0x20 || b > 0x7e || b == 0x20 || b == 0x22 || b == 0x23 || b == 0x25 || b == 0x3c
        || b == 0x3e || b == 0x60 || b == 0x3f || b == 0x7b || b == 0x7d || b == 0x2f || b == 0x3a
        || b == 0x3b || b == 0x3d || b == 0x40 || b == 0x5b || b == 0x5c || b == 0x5d || b == 0x5e
        || b == 0x7c || b == 0x2b || b == 0x2c
}

/// The uppercase hex digit for a value below 16.
pub open spec fn hex_digit(d: u8) -> char
    recommends
        d < 16,
{
    if d == 0 {
        '0'
    } else if d == 1 {
        '1'
    } else if d == 2 {
        '2'
    } else if d == 3 {
        '3'
    } else if d == 4 {
        '4'
    } else if d == 5 {
        '5'
    } else if d == 6 {
        '6'
    } else if d == 7 {
        '7'
    } else if d == 8 {
        '8'
    } else if d == 9 {
        '9'
    } else if d == 10 {
        'A'
    } else if d == 11 {
        'B'
    } else if d == 12 {
        'C'
    } else if d == 13 {
        'D'
    } else if d == 14 {
        'E'
    } else {
        'F'
    }
}

/// What one byte of input contributes to the encoded text.
pub open spec fn encode_byte(b: u8) -> Seq<char> {
    if must_encode(b) {
        seq!['%', hex_digit(b / 16), hex_digit(b % 16)]
    } else {
        seq![b as char]
    }
}

/// The percent-encoded text for a byte sequence.
pub open spec fn encode_bytes(bs: Seq<u8>) -> Seq<char>
    decreases bs.len(),
{
    if bs.len() == 0 {
        seq![]
    } else {
        encode_byte(bs[0]) + encode_bytes(bs.drop_first())
    }
}

/// The percent-encoded text for a string: its UTF-8 bytes, encoded.
pub open spec fn percent_encoded(s: Seq<char>) -> Seq<char> {
    encode_bytes(encode_utf8(s))
}

pub proof fn lemma_encode_bytes_push(bs: Seq<u8>, b: u8)
    ensures
        encode_bytes(bs.push(b)) == encode_bytes(bs) + encode_byte(b),
    decreases bs.len(),
{
    if bs.len() == 0 {
        let empty: Seq<u8> = seq![];
        assert(bs.push(b).drop_first() =~= empty);
        assert(encode_bytes(empty) =~= Seq::<char>::empty());
        assert(bs =~= empty);
        assert(bs.push(b)[0] == b);
        assert(encode_bytes(bs.push(b)) =~= encode_byte(b) + Seq::<char>::empty());
        assert(encode_bytes(bs.push(b)) =~= encode_bytes(bs) + encode_byte(b));
    } else {
        assert(bs.push(b).drop_first() =~= bs.drop_first().push(b));
        lemma_encode_bytes_push(bs.drop_first(), b);
        assert(encode_bytes(bs.push(b)) =~= encode_bytes(bs) + encode_byte(b));
    }
}

fn byte_must_encode(b: u8) -> (r: bool)
    ensures
        r == must_encode(b),
{
    b < 0x20 || b > 0x7e || b == 0x20 || b == 0x22 || b == 0x23 || b == 0x25 || b == 0x3c
        || b == 0x3e || b == 0x60 || b == 0x3f || b == 0x7b || b == 0x7d || b == 0x2f || b == 0x3a
        || b == 0x3b || b == 0x3d || b == 0x40 || b == 0x5b || b == 0x5c || b == 0x5d || b == 0x5e
        || b == 0x7c || b == 0x2b || b == 0x2c
}

pub(crate) fn hex_digit_char(d: u8) -> (r: char)
    requires
        d < 16,
    ensures
        r == hex_digit(d),
{
    match d {
        0 => '0',
        1 => '1',
        2 => '2',
        3 => '3',
        4 => '4',
        5 => '5',
        6 => '6',
        7 => '7',
        8 => '8',
        9 => '9',
        10 => 'A',
        11 => 'B',
        12 => 'C',
        13 => 'D',
        14 => 'E',
        _ => 'F',
    }
}

/// Appends one character onto a `String`.
///
/// Relies on std's `String::push`, which appends the given `char` onto the
/// end of the string.
#[verifier::external_body]
pub(crate) fn push_char(s: &mut String, c: char)
    ensures
        final(s)@ == old(s)@ + seq![c],
{
    s.push(c);
}

fn ascii_byte_to_char(b: u8) -> (r: char)
    requires
        b <= 0x7e,
    ensures
        r == (b as char),
{
    b as char
}

/// Percent-encode a value for the canonical query: every byte of its UTF-8
/// form that `must_encode` admits becomes `%` plus two uppercase hex digits,
/// every other byte stands as its own character.
pub fn percent_encode(source: &str) -> (r: String)
    ensures
        r@ == percent_encoded(source@),
{
    let bytes = source.as_bytes_vec();
    let mut out = String::new();
    let mut i: usize = 0;
    while i < bytes.len()
        invariant
            bytes@ == encode_utf8(source@),
            i <= bytes.len(),
            out@ == encode_bytes(bytes@.take(i as int)),
        decreases bytes.len() - i,
    {
        let b = bytes[i];
        if byte_must_encode(b) {
            push_char(&mut out, '%');
            push_char(&mut out, hex_digit_char(b / 16));
            push_char(&mut out, hex_digit_char(b % 16));
        } else {
            push_char(&mut out, ascii_byte_to_char(b));
        }
        proof {
            lemma_encode_bytes_push(bytes@.take(i as int), b);
            assert(bytes@.take(i as int).push(b) =~= bytes@.take(i + 1));
            assert(out@ =~= encode_bytes(bytes@.take(i + 1)));
        }
        i = i + 1;
    }
    proof {
        assert(bytes@.take(bytes@.len() as int) =~= bytes@);
    }
    out
}

/// Whether a character is one that `must_encode` names: the raw characters
/// that never survive percent-encoding.
pub open spec fn char_reserved(c: char) -> bool {
    (c as u32) < 128 && must_encode((c as u32) as u8)
}

/// Percent-encoded text holds no reserved character but the `%` of its own
/// escapes: every `+`, `,`, space and reserved URI character of the input
/// was replaced, and the escapes use only `%` and hex digits.
pub proof fn lemma_encoded_free_of_reserved(bs: Seq<u8>)
    ensures
        forall|i: int|
            0 <= i < encode_bytes(bs).len() ==> (encode_bytes(bs)[i] == '%' || !char_reserved(
                #[trigger] encode_bytes(bs)[i],
            )),
    decreases bs.len(),
{
    if bs.len() > 0 {
        lemma_encoded_free_of_reserved(bs.drop_first());
        assert forall|i: int| 0 <= i < encode_bytes(bs).len() implies (encode_bytes(bs)[i] == '%'
            || !char_reserved(#[trigger] encode_bytes(bs)[i])) by {
            let head = encode_byte(bs[0]);
            if i < head.len() {
                assert(encode_bytes(bs)[i] == head[i]);
            } else {
                assert(encode_bytes(bs)[i] == encode_bytes(bs.drop_first())[i - head.len()]);
            }
        }
    }
}

/// Each byte of input contributes at least one character of encoded text.
pub proof fn lemma_encode_bytes_len(bs: Seq<u8>)
    ensures
        encode_bytes(bs).len() >= bs.len(),
    decreases bs.len(),
{
    if bs.len() > 0 {
        lemma_encode_bytes_len(bs.drop_first());
    }
}

/// A byte in the encode set makes the encoded text strictly longer than
/// the input bytes.
pub proof fn lemma_encode_bytes_len_strict(bs: Seq<u8>, j: int)
    requires
        0 <= j < bs.len(),
        must_encode(bs[j]),
    ensures
        encode_bytes(bs).len() > bs.len(),
    decreases j,
{
    if j == 0 {
        lemma_encode_bytes_len(bs.drop_first());
    } else {
        lemma_encode_bytes_len_strict(bs.drop_first(), j - 1);
    }
}

/// Each character of input contributes at least one UTF-8 byte.
pub proof fn lemma_encode_utf8_len(s: Seq<char>)
    ensures
        encode_utf8(s).len() >= s.len(),
    decreases s.len(),
{
    if s.len() > 0 {
        lemma_encode_utf8_len(s.drop_first());
    }
}

/// A reserved character of the input stands in its UTF-8 bytes as a byte of
/// the encode set.
pub proof fn lemma_encode_utf8_keeps_reserved(s: Seq<char>, i: int)
    requires
        0 <= i < s.len(),
        char_reserved(s[i]),
    ensures
        exists|j: int|
            0 <= j < encode_utf8(s).len() && must_encode(#[trigger] encode_utf8(s)[j]),
    decreases i,
{
    if i == 0 {
        let v = s[0] as u32;
        assert(v & 0x7F == v) by (bit_vector)
            requires
                v < 128,
        ;
        assert(encode_utf8(s)[0] == (v & 0x7F) as u8);
        assert(must_encode(encode_utf8(s)[0]));
    } else {
        lemma_encode_utf8_keeps_reserved(s.drop_first(), i - 1);
        let j = choose|j: int|
            0 <= j < encode_utf8(s.drop_first()).len() && must_encode(
                #[trigger] encode_utf8(s.drop_first())[j],
            );
        let head_len = vstd::utf8::encode_scalar(s[0] as u32).len() as int;
        assert(encode_utf8(s)[j + head_len] == encode_utf8(s.drop_first())[j]);
        assert(must_encode(encode_utf8(s)[j + head_len]));
    }
}

/// Encoding is applied exactly once per value: a value still holding a
/// reserved character is raw, and encoding it always changes it.
pub proof fn lemma_encode_changes_reserved(s: Seq<char>, i: int)
    requires
        0 <= i < s.len(),
        char_reserved(s[i]),
    ensures
        percent_encoded(s) != s,
{
    lemma_encode_utf8_keeps_reserved(s, i);
    let j = choose|j: int|
        0 <= j < encode_utf8(s).len() && must_encode(#[trigger] encode_utf8(s)[j]);
    lemma_encode_bytes_len_strict(encode_utf8(s), j);
    lemma_encode_utf8_len(s);
    assert(percent_encoded(s).len() > s.len());
}

/// An escape's `%` stands in the encoded text of any input with a byte of
/// the encode set.
pub proof fn lemma_encoded_contains_percent(bs: Seq<u8>, j: int)
    requires
        0 <= j < bs.len(),
        must_encode(bs[j]),
    ensures
        exists|k: int| 0 <= k < encode_bytes(bs).len() && #[trigger] encode_bytes(bs)[k] == '%',
    decreases j,
{
    if j == 0 {
        assert(encode_bytes(bs)[0] == '%');
    } else {
        lemma_encoded_contains_percent(bs.drop_first(), j - 1);
        let k = choose|k: int|
            0 <= k < encode_bytes(bs.drop_first()).len() && #[trigger] encode_bytes(
                bs.drop_first(),
            )[k] == '%';
        let head_len = encode_byte(bs[0]).len() as int;
        assert(encode_bytes(bs)[k + head_len] == '%');
    }
}

/// Byte-level percent-encoding is injective: two byte sequences with the
/// same encoded text are the same bytes.
pub proof fn lemma_encode_bytes_injective(a: Seq<u8>, b: Seq<u8>)
    requires
        encode_bytes(a) == encode_bytes(b),
    ensures
        a == b,
    decreases a.len(),
{
    if a.len() == 0 {
        lemma_encode_bytes_len(b);
        assert(a =~= b);
    } else if b.len() == 0 {
        lemma_encode_bytes_len(a);
        assert(a =~= b);
    } else {
        let ea = encode_byte(a[0]);
        let eb = encode_byte(b[0]);
        if must_encode(a[0]) != must_encode(b[0]) {
            // one head opens an escape, the other is a pass-through byte,
            // which cannot be `%` since `%` is in the encode set
            assert(encode_bytes(a)[0] == ea[0]);
            assert(encode_bytes(b)[0] == eb[0]);
            if must_encode(a[0]) {
                lemma_char_byte_value(b[0]);
                assert(false);
            } else {
                lemma_char_byte_value(a[0]);
                assert(false);
            }
        } else if must_encode(a[0]) {
            assert(encode_bytes(a)[1] == ea[1] && encode_bytes(a)[2] == ea[2]);
            assert(encode_bytes(b)[1] == eb[1] && encode_bytes(b)[2] == eb[2]);
            assert(a[0] / 16 == b[0] / 16 && a[0] % 16 == b[0] % 16) by {
                assert(hex_digit(a[0] / 16) == hex_digit(b[0] / 16));
                assert(hex_digit(a[0] % 16) == hex_digit(b[0] % 16));
            }
            assert(a[0] == b[0]);
            assert(encode_bytes(a.drop_first()) =~= encode_bytes(a).skip(3));
            assert(encode_bytes(b.drop_first()) =~= encode_bytes(b).skip(3));
            lemma_encode_bytes_injective(a.drop_first(), b.drop_first());
            assert forall|i: int| 0 <= i < a.len() implies a[i] == b[i] by {
                if i > 0 {
                    assert(a.drop_first()[i - 1] == a[i]);
                    assert(b.drop_first()[i - 1] == b[i]);
                }
            }
            assert(a =~= b);
        } else {
            assert(encode_bytes(a)[0] == ea[0]);
            assert(encode_bytes(b)[0] == eb[0]);
            lemma_char_byte_value(a[0]);
            lemma_char_byte_value(b[0]);
            assert(a[0] == b[0]);
            assert(encode_bytes(a.drop_first()) =~= encode_bytes(a).skip(1));
            assert(encode_bytes(b.drop_first()) =~= encode_bytes(b).skip(1));
            lemma_encode_bytes_injective(a.drop_first(), b.drop_first());
            assert forall|i: int| 0 <= i < a.len() implies a[i] == b[i] by {
                if i > 0 {
                    assert(a.drop_first()[i - 1] == a[i]);
                    assert(b.drop_first()[i - 1] == b[i]);
                }
            }
            assert(a =~= b);
        }
    }
}

/// A byte below 128 keeps its value through the cast to `char`.
proof fn lemma_char_byte_value(b: u8)
    requires
        b < 128,
    ensures
        (b as char) as u32 == b,
{
}

/// Percent-encoding is injective: two values with the same encoded text are
/// the same value, so standard percent-decoding recovers the source
/// exactly.
pub proof fn lemma_percent_encode_injective(s1: Seq<char>, s2: Seq<char>)
    requires
        percent_encoded(s1) == percent_encoded(s2),
    ensures
        s1 == s2,
{
    lemma_encode_bytes_injective(encode_utf8(s1), encode_utf8(s2));
    vstd::utf8::encode_utf8_decode_utf8(s1);
    vstd::utf8::encode_utf8_decode_utf8(s2);
}

/// The encode-once invariant: percent-encoding a value that holds a
/// reserved character, then encoding the result again, changes it — the
/// `%` of each escape is itself in the encode set, so encoding is
/// non-idempotent by construction and must be applied exactly once.
pub proof fn lemma_encode_not_idempotent(s: Seq<char>, i: int)
    requires
        0 <= i < s.len(),
        char_reserved(s[i]),
    ensures
        percent_encoded(percent_encoded(s)) != percent_encoded(s),
{
    lemma_encode_utf8_keeps_reserved(s, i);
    let j = choose|j: int|
        0 <= j < encode_utf8(s).len() && must_encode(#[trigger] encode_utf8(s)[j]);
    lemma_encoded_contains_percent(encode_utf8(s), j);
    let k = choose|k: int|
        0 <= k < percent_encoded(s).len() && #[trigger] percent_encoded(s)[k] == '%';
    assert(char_reserved('%'));
    lemma_encode_changes_reserved(percent_encoded(s), k);
}

} // verus!
