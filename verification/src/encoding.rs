//! The fragment-safe percent encoder.
//!
//! A query value embedded in a URL is encoded under a deliberately narrow
//! rule: only the C0 control bytes, DEL, space, `"`, `<`, `>`, backtick and
//! every non-ASCII byte become `%XX` triplets; all other bytes, including
//! URL-structural punctuation such as `&` and `=`, pass through unchanged.

use vstd::prelude::*;
use vstd::string::*;
use vstd::utf8::encode_utf8;

verus! {

/// The configured unsafe set: the C0 control bytes and space (`b <= 0x20`),
/// DEL, `"`, `<`, `>` and backtick.
pub open spec fn spec_in_fragment_set(b: u8) -> bool {
    b <= 0x20 || b == 0x7f || b == 0x22 || b == 0x3c || b == 0x3e || b == 0x60
}

/// Whether the encoder rewrites a byte: every byte of the unsafe set, and
/// every non-ASCII byte.
pub open spec fn spec_must_encode(b: u8) -> bool {
    b >= 0x80 || spec_in_fragment_set(b)
}

pub fn in_fragment_set(b: u8) -> (r: bool)
    ensures
        r == spec_in_fragment_set(b),
{
    b <= 0x20 || b == 0x7f || b == 0x22 || b == 0x3c || b == 0x3e || b == 0x60
}

pub fn must_encode(b: u8) -> (r: bool)
    ensures
        r == spec_must_encode(b),
{
    b >= 0x80 || in_fragment_set(b)
}

/// The uppercase hexadecimal digit of a value below sixteen.
pub open spec fn hex_digit(n: u8) -> char
    recommends
        n < 16,
{
    if n < 10 {
        (0x30 + n) as char
    } else {
        (0x37 + n) as char
    }
}

/// The percent-encoding of one byte: `%` followed by the byte's value as two
/// uppercase hexadecimal digits.
pub open spec fn percent_triplet(b: u8) -> Seq<char> {
    seq!['%', hex_digit(b / 16), hex_digit(b % 16)]
}

/// What the encoder emits for one input byte.
pub open spec fn encoded_byte(b: u8) -> Seq<char> {
    if spec_must_encode(b) {
        percent_triplet(b)
    } else {
        seq![b as char]
    }
}

/// The fragment-safe percent encoding of a byte sequence.
pub open spec fn fragment_encoded(bs: Seq<u8>) -> Seq<char>
    decreases bs.len(),
{
    if bs.len() == 0 {
        Seq::<char>::empty()
    } else {
        encoded_byte(bs[0]) + fragment_encoded(bs.subrange(1, bs.len() as int))
    }
}

pub proof fn lemma_fragment_encoded_push(bs: Seq<u8>, b: u8)
    ensures
        fragment_encoded(bs.push(b)) == fragment_encoded(bs) + encoded_byte(b),
    decreases bs.len(),
{
    if bs.len() == 0 {
        assert(bs.push(b)[0] == b);
        assert(bs.push(b).subrange(1, 1) =~= Seq::<u8>::empty());
        assert(fragment_encoded(bs.push(b)) == encoded_byte(b) + fragment_encoded(
            Seq::<u8>::empty(),
        ));
        assert(encoded_byte(b) + Seq::<char>::empty() =~= encoded_byte(b));
        assert(fragment_encoded(bs) + encoded_byte(b) =~= encoded_byte(b));
    } else {
        let tail = bs.subrange(1, bs.len() as int);
        assert(bs.push(b).subrange(1, bs.push(b).len() as int) =~= tail.push(b));
        lemma_fragment_encoded_push(tail, b);
        assert(encoded_byte(bs[0]) + (fragment_encoded(tail) + encoded_byte(b)) =~= (encoded_byte(
            bs[0],
        ) + fragment_encoded(tail)) + encoded_byte(b));
    }
}

/// Whether a character is a hexadecimal digit, of either case.
pub open spec fn is_hex_digit(c: char) -> bool {
    (0x30 <= c as u32 && c as u32 <= 0x39) || (0x41 <= c as u32 && c as u32 <= 0x46) || (0x61 <= c
        as u32 && c as u32 <= 0x66)
}

/// The value of a hexadecimal digit character.
pub open spec fn hex_value(c: char) -> u8
    recommends
        is_hex_digit(c),
{
    if 0x30 <= c as u32 && c as u32 <= 0x39 {
        (c as u32 - 0x30) as u8
    } else if 0x41 <= c as u32 && c as u32 <= 0x46 {
        (c as u32 - 0x37) as u8
    } else {
        (c as u32 - 0x57) as u8
    }
}

/// Standard percent-decoding: each `%` followed by two hexadecimal digits
/// becomes the byte they name; every other character stands for its own code
/// point, truncated to a byte.
pub open spec fn percent_decoded(cs: Seq<char>) -> Seq<u8>
    decreases cs.len(),
{
    if cs.len() == 0 {
        Seq::<u8>::empty()
    } else if cs[0] == '%' && cs.len() >= 3 && is_hex_digit(cs[1]) && is_hex_digit(cs[2]) {
        seq![(16 * hex_value(cs[1]) + hex_value(cs[2])) as u8] + percent_decoded(
            cs.subrange(3, cs.len() as int),
        )
    } else {
        seq![(cs[0] as u32) as u8] + percent_decoded(cs.subrange(1, cs.len() as int))
    }
}

/// Whether a byte is the ASCII code of a hexadecimal digit, of either case.
pub open spec fn is_hex_digit_byte(b: u8) -> bool {
    (0x30 <= b && b <= 0x39) || (0x41 <= b && b <= 0x46) || (0x61 <= b && b <= 0x66)
}

/// No literal `%` in the input is followed by two bytes that read as
/// hexadecimal digits. The narrow encoder leaves `%` unescaped, so only on
/// such inputs is its output free of accidental escape sequences.
pub open spec fn decodes_unambiguously(bs: Seq<u8>) -> bool {
    forall|i: int|
        0 <= i && i + 2 < bs.len() ==> !(#[trigger] bs[i] == 0x25 && is_hex_digit_byte(bs[i + 1])
            && is_hex_digit_byte(bs[i + 2]))
}

/// Relies on `percent_encoding::percent_encode_byte`: the unconditional
/// percent-encoding of one byte, a `%` followed by the byte's value as two
/// uppercase hexadecimal digits.
#[verifier::external_body]
fn percent_encode_byte_str(b: u8) -> (r: &'static str)
    ensures
        r@ == percent_triplet(b),
{
    percent_encoding::percent_encode_byte(b)
}

/// Relies on `String::push` of std, which appends the given character to the
/// end of the string.
pub assume_specification[ String::push ](s: &mut String, ch: char)
    ensures
        final(s)@ == old(s)@.push(ch),
;

/// Percent-encode the UTF-8 bytes of `raw` under the fragment rule.
pub fn encode_fragment(raw: &str) -> (r: String)
    ensures
        r@ == fragment_encoded(encode_utf8(raw@)),
{
    let bytes: Vec<u8> = raw.as_bytes_vec();
    let mut out = String::new();
    let mut i: usize = 0;
    while i < bytes.len()
        invariant
            bytes@ == encode_utf8(raw@),
            i <= bytes@.len(),
            out@ == fragment_encoded(bytes@.take(i as int)),
        decreases bytes@.len() - i,
    {
        let b = bytes[i];
        proof {
            lemma_fragment_encoded_push(bytes@.take(i as int), b);
            assert(bytes@.take(i + 1 as int) =~= bytes@.take(i as int).push(b));
        }
        if must_encode(b) {
            let triplet = percent_encode_byte_str(b);
            out.append(triplet);
        } else {
            out.push(b as char);
            proof {
                assert(out@ =~= fragment_encoded(bytes@.take(i as int)) + encoded_byte(b));
            }
        }
        i += 1;
    }
    proof {
        assert(bytes@.take(bytes@.len() as int) =~= bytes@);
    }
    out
}

proof fn lemma_hex_digit_value(n: u8)
    requires
        n < 16,
    ensures
        is_hex_digit(hex_digit(n)),
        hex_value(hex_digit(n)) == n,
{
}

/// Bytes the encoder leaves alone are byte-identical before and after
/// encoding: on input free of the unsafe set and of non-ASCII bytes, the
/// encoding is the input itself, character for character.
pub proof fn lemma_unencoded_identity(bs: Seq<u8>)
    requires
        forall|i: int| 0 <= i < bs.len() ==> !spec_must_encode(#[trigger] bs[i]),
    ensures
        fragment_encoded(bs).len() == bs.len(),
        forall|i: int| 0 <= i < bs.len() ==> fragment_encoded(bs)[i] == (#[trigger] bs[i]) as char,
    decreases bs.len(),
{
    if bs.len() > 0 {
        let tail = bs.subrange(1, bs.len() as int);
        assert(forall|i: int| 0 <= i < tail.len() ==> !spec_must_encode(#[trigger] tail[i])) by {
            assert(forall|i: int| 0 <= i < tail.len() ==> tail[i] == #[trigger] bs[i + 1]);
        }
        lemma_unencoded_identity(tail);
        assert(!spec_must_encode(bs[0]));
        assert forall|i: int| 0 <= i < bs.len() implies fragment_encoded(bs)[i] == (
        #[trigger] bs[i]) as char by {
            if i > 0 {
                assert(fragment_encoded(bs)[i] == fragment_encoded(tail)[i - 1]);
                assert(tail[i - 1] == bs[i]);
            }
        }
    }
}

/// Decoding is a left inverse of the fragment encoding wherever the input
/// holds no `%` directly followed by two hexadecimal-digit bytes.
pub proof fn lemma_fragment_round_trip(bs: Seq<u8>)
    requires
        decodes_unambiguously(bs),
    ensures
        percent_decoded(fragment_encoded(bs)) == bs,
    decreases bs.len(),
{
    if bs.len() == 0 {
        assert(percent_decoded(fragment_encoded(bs)) =~= bs);
    } else {
        let b0 = bs[0];
        let tail = bs.subrange(1, bs.len() as int);
        assert(decodes_unambiguously(tail)) by {
            assert(forall|i: int| 0 <= i < tail.len() ==> tail[i] == #[trigger] bs[i + 1]);
        }
        lemma_fragment_round_trip(tail);
        let cs = fragment_encoded(bs);
        assert(cs == encoded_byte(b0) + fragment_encoded(tail));
        if spec_must_encode(b0) {
            lemma_hex_digit_value(b0 / 16);
            lemma_hex_digit_value(b0 % 16);
            assert(cs[0] == '%' && cs[1] == hex_digit(b0 / 16) && cs[2] == hex_digit(b0 % 16));
            assert(16 * (b0 / 16) + (b0 % 16) == b0) by (bit_vector);
            assert(cs.subrange(3, cs.len() as int) =~= fragment_encoded(tail));
            assert(seq![b0] + percent_decoded(fragment_encoded(tail)) =~= bs);
        } else {
            assert(cs[0] == b0 as char);
            let triplet_branch = cs[0] == '%' && cs.len() >= 3 && is_hex_digit(cs[1])
                && is_hex_digit(cs[2]);
            if triplet_branch {
                // The input byte was a literal `%`; show the two following
                // output characters cannot both read as hexadecimal digits.
                assert(b0 == 0x25);
                assert(tail.len() >= 1 && fragment_encoded(tail).len() >= 2);
                assert(fragment_encoded(tail) == encoded_byte(tail[0]) + fragment_encoded(
                    tail.subrange(1, tail.len() as int),
                ));
                assert(cs[1] == encoded_byte(tail[0])[0]);
                assert(!spec_must_encode(tail[0]) && is_hex_digit_byte(tail[0]));
                assert(encoded_byte(tail[0]).len() == 1);
                let tail2 = tail.subrange(1, tail.len() as int);
                assert(tail2.len() >= 1);
                assert(fragment_encoded(tail2) == encoded_byte(tail2[0]) + fragment_encoded(
                    tail2.subrange(1, tail2.len() as int),
                ));
                assert(cs[2] == encoded_byte(tail2[0])[0]);
                assert(!spec_must_encode(tail2[0]) && is_hex_digit_byte(tail2[0]));
                assert(bs[0] == 0x25 && is_hex_digit_byte(bs[1]) && is_hex_digit_byte(bs[2]));
                assert(false);
            }
            assert(cs.subrange(1, cs.len() as int) =~= fragment_encoded(tail));
            assert((cs[0] as u32) as u8 == b0);
            assert(seq![b0] + percent_decoded(fragment_encoded(tail)) =~= bs);
        }
    }
}

} // verus!
