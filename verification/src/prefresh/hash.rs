//! Hashes of signatures and of file names.

use base64::Engine;
use base64::prelude::BASE64_STANDARD;
use sha1::{Digest, Sha1};
use vstd::prelude::*;
use vstd::utf8::encode_utf8;

verus! {

/// The SHA-1 digest of bytes.
pub uninterp spec fn sha1_of(bytes: Seq<u8>) -> Seq<u8>;

/// `sha1::Sha1::digest`: the digest of the bytes, which has twenty bytes.
#[verifier::external_body]
pub(crate) fn sha1_digest(bytes: &[u8]) -> (r: Vec<u8>)
    ensures
        r@ == sha1_of(bytes@),
        r@.len() == 20,
{
    Sha1::digest(bytes).to_vec()
}

/// A digit of the standard alphabet of base 64.
pub open spec fn base64_digit(v: int) -> char {
    if v < 26 {
        ('A' as int + v) as char
    } else if v < 52 {
        ('a' as int + (v - 26)) as char
    } else if v < 62 {
        ('0' as int + (v - 52)) as char
    } else if v == 62 {
        '+'
    } else {
        '/'
    }
}

/// Bytes in base 64, with padding: three bytes are four digits.
pub open spec fn base64_of(bytes: Seq<u8>) -> Seq<char>
    decreases bytes.len(),
{
    if bytes.len() == 0 {
        Seq::empty()
    } else {
        let a = bytes[0] as int;
        let b = if bytes.len() > 1 {
            bytes[1] as int
        } else {
            0
        };
        let c = if bytes.len() > 2 {
            bytes[2] as int
        } else {
            0
        };
        let digits = seq![
            base64_digit(a / 4),
            base64_digit((a % 4) * 16 + b / 16),
            if bytes.len() > 1 {
                base64_digit((b % 16) * 4 + c / 64)
            } else {
                '='
            },
            if bytes.len() > 2 {
                base64_digit(c % 64)
            } else {
                '='
            },
        ];
        if bytes.len() > 3 {
            digits + base64_of(bytes.skip(3))
        } else {
            digits
        }
    }
}

/// `base64::Engine::encode` of `base64::prelude::BASE64_STANDARD`: the bytes in base 64, with
/// padding. The bytes are few enough for the length of the result to be a `usize`.
#[verifier::external_body]
pub(crate) fn base64_encode(bytes: &[u8]) -> (r: String)
    requires
        bytes@.len() <= 0x1000_0000,
    ensures
        r@ == base64_of(bytes@),
{
    BASE64_STANDARD.encode(bytes)
}

/// The digest of a text, in base 64.
pub open spec fn hashed(text: Seq<char>) -> Seq<char> {
    base64_of(sha1_of(encode_utf8(text)))
}

/// The digest of a text, in base 64.
pub fn hash_signature(text: &str) -> (r: String)
    ensures
        r@ == hashed(text@),
{
    let digest = sha1_digest(text.as_bytes());
    encode_digest(digest.as_slice())
}

/// A digest, in base 64.
pub fn encode_digest(digest: &[u8]) -> (r: String)
    requires
        digest@.len() == 20,
    ensures
        r@ == base64_of(digest@),
{
    base64_encode(digest)
}

/// The hash of bytes: from the last to the first, each is mixed into thirty-three times the hash
/// of those after it.
pub open spec fn hash_bytes(bytes: Seq<u8>) -> u32
    decreases bytes.len(),
{
    if bytes.len() == 0 {
        5381
    } else {
        ((hash_bytes(bytes.drop_first()) * 33) % 0x1_0000_0000) as u32 ^ bytes[0] as u32
    }
}

/// A digit in base 36.
pub open spec fn base36_digit(d: int) -> char {
    if d < 10 {
        ('0' as int + d) as char
    } else {
        ('a' as int + (d - 10)) as char
    }
}

/// The numeral of `n` in base 36, without leading zeros.
pub open spec fn base36(n: nat) -> Seq<char>
    decreases n,
{
    if n < 36 {
        seq![base36_digit(n as int)]
    } else {
        base36(n / 36).push(base36_digit((n % 36) as int))
    }
}

/// The hash of a text, in base 36.
pub open spec fn short_hash(text: Seq<char>) -> Seq<char> {
    base36(hash_bytes(encode_utf8(text)) as nat)
}

/// The numeral of `n` in base 36.
pub fn base36_string(n: u32) -> (r: String)
    ensures
        r@ == base36(n as nat),
    decreases n,
{
    let digits = "0123456789abcdefghijklmnopqrstuvwxyz";
    proof {
        reveal_strlit("0123456789abcdefghijklmnopqrstuvwxyz");
        assert(digits@.len() == 36);
    }
    let d = (n % 36) as usize;
    let digit = digits.substring_char(d, d + 1);
    proof {
        assert(digit@ =~= seq![digits@[d as int]]);
        assert(digits@[d as int] == base36_digit(d as int));
    }
    let mut r = if n < 36 {
        String::new()
    } else {
        base36_string(n / 36)
    };
    let ghost high = r@;
    r.append(digit);
    proof {
        assert(r@ =~= high.push(base36_digit(d as int)));
    }
    r
}

/// The hash of a text, in base 36.
pub fn hash_base36(input: &str) -> (r: String)
    ensures
        r@ == short_hash(input@),
{
    let bytes = input.as_bytes();
    let mut hash: u32 = 5381;
    let mut i: usize = bytes.len();
    proof {
        assert(bytes@.skip(bytes@.len() as int) =~= Seq::empty());
    }
    while i > 0
        invariant
            i <= bytes@.len(),
            hash == hash_bytes(bytes@.skip(i as int)),
        decreases i,
    {
        i -= 1;
        proof {
            assert(bytes@.skip(i as int).drop_first() =~= bytes@.skip(i + 1));
        }
        hash = hash.wrapping_mul(33) ^ (bytes[i] as u32);
    }
    proof {
        assert(bytes@.skip(0) =~= bytes@);
    }
    base36_string(hash)
}

/// What a digit in base 36 stands for.
pub open spec fn digit_value(c: char) -> int {
    if '0' <= c <= '9' {
        c as int - '0' as int
    } else {
        c as int - 'a' as int + 10
    }
}

/// The number that a numeral in base 36 stands for: the last digit is the lowest.
pub open spec fn numeral_value(text: Seq<char>) -> int
    decreases text.len(),
{
    if text.len() == 0 {
        0
    } else {
        36 * numeral_value(text.drop_last()) + digit_value(text.last())
    }
}

/// A numeral stands for its number, is made of digits and small letters, and starts with a zero
/// for zero alone.
pub proof fn law_numerals_stand_for_their_numbers(n: nat)
    ensures
        numeral_value(base36(n)) == n,
        base36(n).len() > 0,
        base36(n)[0] == '0' <==> n == 0,
        forall|i: int|
            0 <= i < base36(n).len() ==> '0' <= #[trigger] base36(n)[i] <= '9' || 'a' <= base36(
                n,
            )[i] <= 'z',
    decreases n,
{
    let text = base36(n);
    let digit = base36_digit((n % 36) as int);
    assert(digit_value(digit) == n % 36);
    if n < 36 {
        assert(text.drop_last() =~= Seq::empty());
        assert(numeral_value(text.drop_last()) == 0);
    } else {
        law_numerals_stand_for_their_numbers(n / 36);
        assert(text.drop_last() =~= base36(n / 36));
        assert(text.last() == digit);
        assert(text[0] == base36(n / 36)[0]);
        assert forall|i: int| 0 <= i < text.len() implies '0' <= #[trigger] text[i] <= '9' || 'a'
            <= text[i] <= 'z' by {
            if i < text.len() - 1 {
                assert(text[i] == base36(n / 36)[i]);
            }
        }
    }
}

/// Two texts have one short hash where the hashes of their bytes are one number.
pub proof fn law_short_hashes_are_told_apart(a: Seq<char>, b: Seq<char>)
    ensures
        short_hash(a) == short_hash(b) <==> hash_bytes(encode_utf8(a)) == hash_bytes(
            encode_utf8(b),
        ),
{
    law_numerals_stand_for_their_numbers(hash_bytes(encode_utf8(a)) as nat);
    law_numerals_stand_for_their_numbers(hash_bytes(encode_utf8(b)) as nat);
}

/// A byte in front is mixed into thirty-three times the hash of the bytes behind it, and taking it
/// out again leaves that. Two hashes that differ in the byte in front differ as the two bytes do.
/// The hash of no bytes is where every other starts.
pub proof fn law_bytes_are_mixed_in(byte: u8, other: u8, rest: Seq<u8>)
    ensures
        (hash_bytes(seq![byte] + rest) ^ byte as u32) == (33 * hash_bytes(rest)) % 0x1_0000_0000,
        (hash_bytes(seq![byte] + rest) ^ hash_bytes(seq![other] + rest)) == (byte as u32
            ^ other as u32),
        hash_bytes(Seq::empty()) == 5381,
{
    let mixed = ((hash_bytes(rest) * 33) % 0x1_0000_0000) as u32;
    let x = byte as u32;
    let y = other as u32;
    assert((seq![byte] + rest).drop_first() =~= rest);
    assert((seq![other] + rest).drop_first() =~= rest);
    assert((mixed ^ x) ^ x == mixed) by (bit_vector);
    assert((mixed ^ x) ^ (mixed ^ y) == x ^ y) by (bit_vector);
}

/// A digit of base 64 stands for one number.
proof fn lemma_base64_digit(v: int, w: int)
    requires
        0 <= v < 64,
        0 <= w < 64,
        base64_digit(v) == base64_digit(w),
    ensures
        v == w,
        base64_digit(v) != '=',
{
}

/// Bytes in base 64 tell the bytes, given how many they are.
pub proof fn law_digests_are_told_apart(a: Seq<u8>, b: Seq<u8>)
    requires
        a.len() == b.len(),
    ensures
        base64_of(a) == base64_of(b) <==> a == b,
    decreases a.len(),
{
    if a.len() == 0 {
        assert(a =~= b);
    } else if base64_of(a) == base64_of(b) {
        let x = base64_of(a);
        let y = base64_of(b);
        let n = a.len();
        let a1: int = if n > 1 {
            a[1] as int
        } else {
            0
        };
        let a2: int = if n > 2 {
            a[2] as int
        } else {
            0
        };
        let b1: int = if n > 1 {
            b[1] as int
        } else {
            0
        };
        let b2: int = if n > 2 {
            b[2] as int
        } else {
            0
        };
        assert(x[0] == y[0] && x[1] == y[1] && x[2] == y[2] && x[3] == y[3]);
        lemma_base64_digit(a[0] as int / 4, b[0] as int / 4);
        lemma_base64_digit((a[0] as int % 4) * 16 + a1 / 16, (b[0] as int % 4) * 16 + b1 / 16);
        assert(a[0] == b[0]);
        if n > 1 {
            lemma_base64_digit((a1 % 16) * 4 + a2 / 64, (b1 % 16) * 4 + b2 / 64);
            assert(a1 == b1);
        }
        if n > 2 {
            lemma_base64_digit(a2 % 64, b2 % 64);
            assert(a2 == b2);
        }
        if n > 3 {
            assert(base64_of(a.skip(3)) =~= x.skip(4));
            assert(base64_of(b.skip(3)) =~= y.skip(4));
            law_digests_are_told_apart(a.skip(3), b.skip(3));
            assert forall|i: int| 3 <= i < n implies a[i] == b[i] by {
                assert(a.skip(3)[i - 3] == b.skip(3)[i - 3]);
            }
        }
        assert(a =~= b);
    }
}

/// Two texts have one hash where their digests are the same.
pub proof fn law_hashes_are_told_apart(a: Seq<char>, b: Seq<char>)
    requires
        sha1_of(encode_utf8(a)).len() == sha1_of(encode_utf8(b)).len(),
    ensures
        hashed(a) == hashed(b) <==> sha1_of(encode_utf8(a)) == sha1_of(encode_utf8(b)),
{
    law_digests_are_told_apart(sha1_of(encode_utf8(a)), sha1_of(encode_utf8(b)));
}

} // verus!
