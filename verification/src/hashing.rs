//! Hashing and hex encoding: the SHA-256 digest behind cache keys,
//! payload checksums and key derivation, and the lowercase hex encoding
//! that turns a digest into a cache key.

use sha2::Digest;
use vstd::prelude::*;
use vstd::string::StringExecFns;
use vstd::utf8::is_ascii_chars;

verus! {

/// The SHA-256 digest of a byte string: a function of the input alone,
/// the same in every process and on every machine.
pub uninterp spec fn spec_sha256(data: Seq<u8>) -> Seq<u8>;

/// Relies on sha2::Sha256 (Digest::digest): the digest is 32 bytes and
/// depends on the input bytes alone.
#[verifier::external_body]
pub fn sha256(data: &[u8]) -> (r: Vec<u8>)
    ensures
        r@ == spec_sha256(data@),
        r@.len() == 32,
{
    sha2::Sha256::digest(data).to_vec()
}

/// The sixteen lowercase hex digits.
pub open spec fn spec_hex_digit(n: u8) -> char {
    if n == 0 {
        '0'
    } else if n == 1 {
        '1'
    } else if n == 2 {
        '2'
    } else if n == 3 {
        '3'
    } else if n == 4 {
        '4'
    } else if n == 5 {
        '5'
    } else if n == 6 {
        '6'
    } else if n == 7 {
        '7'
    } else if n == 8 {
        '8'
    } else if n == 9 {
        '9'
    } else if n == 10 {
        'a'
    } else if n == 11 {
        'b'
    } else if n == 12 {
        'c'
    } else if n == 13 {
        'd'
    } else if n == 14 {
        'e'
    } else {
        'f'
    }
}

/// Lowercase hex encoding: each byte becomes two digits, high nibble first.
pub open spec fn spec_hex_lower(data: Seq<u8>) -> Seq<char>
    decreases data.len(),
{
    if data.len() == 0 {
        Seq::empty()
    } else {
        seq![spec_hex_digit(data.first() / 16), spec_hex_digit(data.first() % 16)]
            + spec_hex_lower(data.drop_first())
    }
}

/// The one-character string holding a nibble's lowercase hex digit.
fn hex_digit_str(n: u8) -> (s: &'static str)
    requires
        n < 16,
    ensures
        s@ == seq![spec_hex_digit(n)],
{
    proof {
        reveal_strlit("0");
        reveal_strlit("1");
        reveal_strlit("2");
        reveal_strlit("3");
        reveal_strlit("4");
        reveal_strlit("5");
        reveal_strlit("6");
        reveal_strlit("7");
        reveal_strlit("8");
        reveal_strlit("9");
        reveal_strlit("a");
        reveal_strlit("b");
        reveal_strlit("c");
        reveal_strlit("d");
        reveal_strlit("e");
        reveal_strlit("f");
    }
    let s: &'static str = if n == 0 {
        "0"
    } else if n == 1 {
        "1"
    } else if n == 2 {
        "2"
    } else if n == 3 {
        "3"
    } else if n == 4 {
        "4"
    } else if n == 5 {
        "5"
    } else if n == 6 {
        "6"
    } else if n == 7 {
        "7"
    } else if n == 8 {
        "8"
    } else if n == 9 {
        "9"
    } else if n == 10 {
        "a"
    } else if n == 11 {
        "b"
    } else if n == 12 {
        "c"
    } else if n == 13 {
        "d"
    } else if n == 14 {
        "e"
    } else {
        "f"
    };
    proof {
        assert(s@ =~= seq![spec_hex_digit(n)]);
    }
    s
}

/// Encodes bytes as lowercase hex: two digits per byte, high nibble
/// first.
pub fn hex_encode(data: &[u8]) -> (r: String)
    ensures
        r@ == spec_hex_lower(data@),
{
    let mut r = String::new();
    let n: usize = data.len();
    let mut i: usize = 0;
    proof {
        assert(data@.skip(0) =~= data@);
    }
    while i < n
        invariant
            n == data@.len(),
            i <= n,
            spec_hex_lower(data@) == r@ + spec_hex_lower(data@.skip(i as int)),
        decreases n - i,
    {
        let b = data[i];
        let ghost pre = r@;
        r.append(hex_digit_str(b / 16));
        r.append(hex_digit_str(b % 16));
        proof {
            let rest = data@.skip(i as int);
            assert(rest.first() == data@[i as int]);
            assert(rest.drop_first() =~= data@.skip(i + 1));
            assert(spec_hex_lower(rest) == seq![
                spec_hex_digit(data@[i as int] / 16),
                spec_hex_digit(data@[i as int] % 16),
            ] + spec_hex_lower(data@.skip(i + 1)));
            assert(r@ =~= pre + seq![
                spec_hex_digit(data@[i as int] / 16),
                spec_hex_digit(data@[i as int] % 16),
            ]);
            assert(spec_hex_lower(data@) == r@ + spec_hex_lower(data@.skip(i + 1)));
        }
        i = i + 1;
    }
    proof {
        assert(data@.skip(n as int) =~= Seq::<u8>::empty());
        assert(r@ =~= spec_hex_lower(data@));
    }
    r
}

/// A hex encoding is twice as long as its input.
pub proof fn lemma_hex_lower_len(data: Seq<u8>)
    ensures
        spec_hex_lower(data).len() == 2 * data.len(),
    decreases data.len(),
{
    if data.len() > 0 {
        lemma_hex_lower_len(data.drop_first());
    }
}

/// Every character of a hex encoding is ASCII.
pub proof fn lemma_hex_lower_ascii(data: Seq<u8>)
    ensures
        is_ascii_chars(spec_hex_lower(data)),
    decreases data.len(),
{
    if data.len() > 0 {
        lemma_hex_lower_ascii(data.drop_first());
        assert forall|i: int|
            0 <= i < spec_hex_lower(data).len() implies '\0' <= #[trigger] spec_hex_lower(data)[i]
            <= '\u{7f}' by {
            if i >= 2 {
                assert(spec_hex_lower(data)[i] == spec_hex_lower(data.drop_first())[i - 2]);
            }
        }
    }
}

} // verus!
