//! Byte-level ASCII utilities: case folding, equality, whitespace trimming,
//! and decimal parsing. Filenames and configuration values are handled as
//! their UTF-8 bytes; everything the rest of the crate needs of them is
//! ASCII-exact.

use vstd::prelude::*;
use vstd::string::StringSliceAdditionalSpecFns;

verus! {

/// An ASCII upper-case letter folded to lower case; every other byte unchanged.
pub open spec fn spec_fold_byte(b: u8) -> u8 {
    if 65 <= b && b <= 90 {
        (b + 32) as u8
    } else {
        b
    }
}

/// A byte sequence with each ASCII upper-case letter folded to lower case.
pub open spec fn spec_fold_bytes(s: Seq<u8>) -> Seq<u8> {
    s.map_values(|b: u8| spec_fold_byte(b))
}

pub fn fold_byte(b: u8) -> (r: u8)
    ensures
        r == spec_fold_byte(b),
{
    if 65 <= b && b <= 90 {
        b + 32
    } else {
        b
    }
}

/// Whether two byte slices hold the same bytes.
pub fn bytes_eq(a: &[u8], b: &[u8]) -> (r: bool)
    ensures
        r == (a@ == b@),
{
    if a.len() != b.len() {
        assert(a@ != b@) by {
            assert(a@.len() != b@.len());
        }
        return false;
    }
    let n: usize = a.len();
    let mut i: usize = 0;
    while i < n
        invariant
            n == a@.len(),
            n == b@.len(),
            i <= n,
            forall|j: int| 0 <= j < i ==> a@[j] == b@[j],
        decreases n - i,
    {
        if a[i] != b[i] {
            return false;
        }
        i = i + 1;
    }
    assert(a@ =~= b@);
    true
}

/// Whether `a`, case-folded, equals the bytes of `s`.
pub fn fold_eq_str(a: &[u8], s: &str) -> (r: bool)
    ensures
        r == (spec_fold_bytes(a@) == s.spec_bytes()),
{
    let sb: &[u8] = s.as_bytes();
    if a.len() != sb.len() {
        assert(spec_fold_bytes(a@) != s.spec_bytes()) by {
            assert(spec_fold_bytes(a@).len() != s.spec_bytes().len());
        }
        return false;
    }
    let n: usize = a.len();
    let mut i: usize = 0;
    while i < n
        invariant
            n == a@.len(),
            n == sb@.len(),
            sb@ == s.spec_bytes(),
            i <= n,
            forall|j: int| 0 <= j < i ==> spec_fold_byte(a@[j]) == sb@[j],
        decreases n - i,
    {
        if fold_byte(a[i]) != sb[i] {
            assert(spec_fold_bytes(a@)[i as int] != s.spec_bytes()[i as int]);
            return false;
        }
        i = i + 1;
    }
    assert(spec_fold_bytes(a@) =~= s.spec_bytes());
    true
}

/// ASCII whitespace: space, horizontal tab, line feed, vertical tab,
/// form feed, carriage return.
pub open spec fn spec_is_ascii_ws(b: u8) -> bool {
    b == 32 || (9 <= b && b <= 13)
}

pub fn is_ascii_ws(b: u8) -> (r: bool)
    ensures
        r == spec_is_ascii_ws(b),
{
    b == 32 || (9 <= b && b <= 13)
}

/// The slice with leading and trailing ASCII whitespace removed:
/// the subrange from the first non-whitespace byte to just past the last.
pub open spec fn spec_trim_ascii(s: Seq<u8>) -> Seq<u8>
    decreases s.len(),
{
    if s.len() == 0 {
        s
    } else if spec_is_ascii_ws(s[0]) {
        spec_trim_ascii(s.subrange(1, s.len() as int))
    } else if spec_is_ascii_ws(s[s.len() - 1]) {
        spec_trim_ascii(s.subrange(0, s.len() - 1))
    } else {
        s
    }
}

pub fn trim_ascii<'a>(s: &'a [u8]) -> (r: &'a [u8])
    ensures
        r@ == spec_trim_ascii(s@),
{
    let mut lo: usize = 0;
    let mut hi: usize = s.len();
    proof {
        assert(s@.subrange(0, s@.len() as int) =~= s@);
    }
    while lo < hi && is_ascii_ws(s[lo])
        invariant
            lo <= hi <= s@.len(),
            spec_trim_ascii(s@) == spec_trim_ascii(s@.subrange(lo as int, hi as int)),
        decreases hi - lo,
    {
        proof {
            let cur = s@.subrange(lo as int, hi as int);
            assert(cur.subrange(1, cur.len() as int) =~= s@.subrange(lo + 1, hi as int));
        }
        lo = lo + 1;
    }
    while lo < hi && is_ascii_ws(s[hi - 1])
        invariant
            lo <= hi <= s@.len(),
            spec_trim_ascii(s@) == spec_trim_ascii(s@.subrange(lo as int, hi as int)),
            lo < hi ==> !spec_is_ascii_ws(s@[lo as int]),
        decreases hi - lo,
    {
        proof {
            let cur = s@.subrange(lo as int, hi as int);
            assert(cur.subrange(0, cur.len() - 1) =~= s@.subrange(lo as int, hi - 1));
        }
        hi = hi - 1;
    }
    proof {
        let cur = s@.subrange(lo as int, hi as int);
        if cur.len() > 0 {
            assert(!spec_is_ascii_ws(cur[0]));
            assert(!spec_is_ascii_ws(cur[cur.len() - 1]));
        }
        assert(spec_trim_ascii(cur) == cur);
    }
    &s[lo..hi]
}

/// The index of the first occurrence of `b`, if any.
pub open spec fn spec_find_byte(s: Seq<u8>, b: u8) -> Option<int> {
    if exists|i: int| 0 <= i < s.len() && s[i] == b {
        Some(choose|i: int| 0 <= i < s.len() && s[i] == b && forall|j: int| 0 <= j < i ==> s[j] != b)
    } else {
        None
    }
}

pub fn find_byte(s: &[u8], b: u8) -> (r: Option<usize>)
    ensures
        match r {
            Some(i) => 0 <= i < s@.len() && s@[i as int] == b && forall|j: int|
                0 <= j < i ==> s@[j] != b,
            None => forall|j: int| 0 <= j < s@.len() ==> s@[j] != b,
        },
{
    let n: usize = s.len();
    let mut i: usize = 0;
    while i < n
        invariant
            n == s@.len(),
            i <= n,
            forall|j: int| 0 <= j < i ==> s@[j] != b,
        decreases n - i,
    {
        if s[i] == b {
            return Some(i);
        }
        i = i + 1;
    }
    None
}

/// The index of the last occurrence of `b`, if any.
pub open spec fn spec_rfind_byte(s: Seq<u8>, b: u8) -> Option<int> {
    if exists|i: int| 0 <= i < s.len() && s[i] == b {
        Some(
            choose|i: int|
                0 <= i < s.len() && s[i] == b && forall|j: int| i < j < s.len() ==> s[j] != b,
        )
    } else {
        None
    }
}

pub fn rfind_byte(s: &[u8], b: u8) -> (r: Option<usize>)
    ensures
        match r {
            Some(i) => 0 <= i < s@.len() && s@[i as int] == b && forall|j: int|
                i < j < s@.len() ==> s@[j] != b,
            None => forall|j: int| 0 <= j < s@.len() ==> s@[j] != b,
        },
        match r {
            Some(i) => spec_rfind_byte(s@, b) == Some(i as int),
            None => spec_rfind_byte(s@, b) is None,
        },
{
    let n: usize = s.len();
    let mut i: usize = n;
    while i > 0
        invariant
            n == s@.len(),
            i <= n,
            forall|j: int| i <= j < n ==> s@[j] != b,
        decreases i,
    {
        i = i - 1;
        if s[i] == b {
            proof {
                let w = choose|w: int|
                    0 <= w < s@.len() && s@[w] == b && forall|j: int| w < j < s@.len() ==> s@[j]
                        != b;
                assert(!(w < i as int) && !((i as int) < w));
            }
            return Some(i);
        }
    }
    proof {
        if exists|j: int| 0 <= j < s@.len() && s@[j] == b {
            let w = choose|w: int| 0 <= w < s@.len() && s@[w] == b;
        }
    }
    None
}

/// An ASCII decimal digit.
pub open spec fn spec_is_digit(b: u8) -> bool {
    48 <= b && b <= 57
}

pub open spec fn spec_all_digits(s: Seq<u8>) -> bool {
    forall|i: int| 0 <= i < s.len() ==> spec_is_digit(#[trigger] s[i])
}

/// The value of a digit string read most-significant first.
pub open spec fn spec_digits_val(s: Seq<u8>) -> int
    decreases s.len(),
{
    if s.len() == 0 {
        0
    } else {
        spec_digits_val(s.drop_last()) * 10 + (s.last() - 48)
    }
}

proof fn lemma_digits_val_nonneg(s: Seq<u8>)
    requires
        spec_all_digits(s),
    ensures
        spec_digits_val(s) >= 0,
    decreases s.len(),
{
    if s.len() > 0 {
        assert(spec_all_digits(s.drop_last()));
        lemma_digits_val_nonneg(s.drop_last());
    }
}

/// A digit string's value only grows as digits are appended.
proof fn lemma_digits_val_prefix_le(s: Seq<u8>, i: int)
    requires
        spec_all_digits(s),
        0 <= i <= s.len(),
    ensures
        spec_digits_val(s.take(i)) <= spec_digits_val(s),
    decreases s.len() - i,
{
    if i < s.len() {
        let t = s.take(i + 1);
        assert(t.drop_last() =~= s.take(i));
        assert(spec_all_digits(t)) by {
            assert(forall|j: int| 0 <= j < t.len() ==> t[j] == s[j]);
        }
        lemma_digits_val_nonneg(s.take(i));
        assert(spec_digits_val(t) == spec_digits_val(s.take(i)) * 10 + (s[i] - 48));
        assert(spec_digits_val(s.take(i)) * 10 >= spec_digits_val(s.take(i)));
        lemma_digits_val_prefix_le(s, i + 1);
    } else {
        assert(s.take(i) =~= s);
    }
}

/// The decimal value of `s` as `u32`, following the standard integer
/// grammar: an optional leading `+`, then at least one digit, the value
/// fitting in the type. Anything else parses to nothing.
pub open spec fn spec_parse_u32(s: Seq<u8>) -> Option<u32> {
    let body = if s.len() > 0 && s[0] == 43 {
        s.subrange(1, s.len() as int)
    } else {
        s
    };
    if body.len() > 0 && spec_all_digits(body) && spec_digits_val(body) <= u32::MAX {
        Some(spec_digits_val(body) as u32)
    } else {
        None
    }
}

pub fn parse_u32(s: &[u8]) -> (r: Option<u32>)
    ensures
        r == spec_parse_u32(s@),
{
    let body: &[u8] = if s.len() > 0 && s[0] == 43 {
        &s[1..s.len()]
    } else {
        s
    };
    proof {
        if s@.len() > 0 && s@[0] == 43 {
            assert(body@ =~= s@.subrange(1, s@.len() as int));
        }
    }
    let n: usize = body.len();
    if n == 0 {
        return None;
    }
    let mut acc: u64 = 0;
    let mut i: usize = 0;
    while i < n
        invariant
            n == body@.len(),
            n > 0,
            i <= n,
            spec_all_digits(body@.take(i as int)),
            acc == spec_digits_val(body@.take(i as int)),
            acc <= u32::MAX,
            spec_parse_u32(s@) == (if body@.len() > 0 && spec_all_digits(body@)
                && spec_digits_val(body@) <= u32::MAX {
                Some(spec_digits_val(body@) as u32)
            } else {
                Option::<u32>::None
            }),
        decreases n - i,
    {
        let b = body[i];
        if !(48 <= b && b <= 57) {
            assert(!spec_all_digits(body@)) by {
                assert(!spec_is_digit(body@[i as int]));
            }
            return None;
        }
        let next: u64 = acc * 10 + ((b - 48) as u64);
        proof {
            assert(body@.take(i + 1).drop_last() =~= body@.take(i as int));
            assert(spec_digits_val(body@.take(i + 1)) == acc * 10 + (b - 48));
            assert(spec_all_digits(body@.take(i + 1)));
        }
        if next > 0xffff_ffff {
            proof {
                if spec_all_digits(body@) {
                    lemma_digits_val_prefix_le(body@, i + 1);
                    assert(spec_digits_val(body@) > u32::MAX);
                }
            }
            return None;
        }
        acc = next;
        i = i + 1;
    }
    proof {
        assert(body@.take(n as int) =~= body@);
    }
    Some(acc as u32)
}

} // verus!
