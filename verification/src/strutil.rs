//! Small string helpers: decimal and hexadecimal rendering, equality, and
//! byte-level parsing helpers used by the value model and the reports.

use vstd::prelude::*;

verus! {

/// The character for a single decimal digit.
pub open spec fn digit_char(d: nat) -> char
    recommends
        d < 10,
{
    ((48 + d) as u8) as char
}

/// The decimal rendering of a natural number, most significant digit first.
pub open spec fn dec_str(n: nat) -> Seq<char>
    decreases n,
{
    if n < 10 {
        seq![digit_char(n)]
    } else {
        dec_str(n / 10).push(digit_char(n % 10))
    }
}

/// An upper-case hexadecimal digit.
pub open spec fn hex_digit_upper(d: nat) -> char
    recommends
        d < 16,
{
    if d < 10 {
        digit_char(d)
    } else {
        ((65 + (d - 10)) as u8) as char
    }
}

/// A lower-case hexadecimal digit.
pub open spec fn hex_digit_lower(d: nat) -> char
    recommends
        d < 16,
{
    if d < 10 {
        digit_char(d)
    } else {
        ((97 + (d - 10)) as u8) as char
    }
}

/// Relies on std's `Display` for `u64`: the decimal digits of the number,
/// most significant first.
#[verifier::external_body]
pub fn u64_dec(n: u64) -> (r: String)
    ensures
        r@ == dec_str(n as nat),
{
    format!("{}", n)
}

/// Relies on alloc's string formatting: the second string appended to the
/// first.
#[verifier::external_body]
pub fn str_concat(a: &str, b: &str) -> (r: String)
    ensures
        r@ == a@ + b@,
{
    format!("{}{}", a, b)
}

/// Relies on str's `PartialEq`: character-for-character equality.
#[verifier::external_body]
pub fn str_eq(a: &str, b: &str) -> (r: bool)
    ensures
        r == (a@ == b@),
{
    a == b
}

/// Relies on std's upper-case hexadecimal formatting for `u8`: exactly two
/// digits, high nibble first.
#[verifier::external_body]
pub fn byte_hex_upper(b: u8) -> (r: String)
    ensures
        r@ == seq![hex_digit_upper((b / 16) as nat), hex_digit_upper((b % 16) as nat)],
{
    format!("{:02X}", b)
}

/// Relies on std's lower-case hexadecimal formatting for `u8`: exactly two
/// digits, high nibble first.
#[verifier::external_body]
pub fn byte_hex_lower(b: u8) -> (r: String)
    ensures
        r@ == seq![hex_digit_lower((b / 16) as nat), hex_digit_lower((b % 16) as nat)],
{
    format!("{:02x}", b)
}

/// The value of one ASCII hexadecimal digit byte, if it is one.
pub open spec fn hex_val(b: u8) -> Option<u8> {
    if 48 <= b && b <= 57 {
        Some((b - 48) as u8)
    } else if 97 <= b && b <= 102 {
        Some((b - 97 + 10) as u8)
    } else if 65 <= b && b <= 70 {
        Some((b - 65 + 10) as u8)
    } else {
        None
    }
}

/// Parse one ASCII hexadecimal digit byte.
pub fn hex_digit_value(b: u8) -> (r: Option<u8>)
    ensures
        r == hex_val(b),
{
    if 48 <= b && b <= 57 {
        Some(b - 48)
    } else if 97 <= b && b <= 102 {
        Some(b - 97 + 10)
    } else if 65 <= b && b <= 70 {
        Some(b - 65 + 10)
    } else {
        None
    }
}

/// An ASCII byte folded to lower case.
pub open spec fn lower_byte(b: u8) -> u8 {
    if 65 <= b && b <= 90 {
        (b + 32) as u8
    } else {
        b
    }
}

/// A byte sequence folded to lower case.
pub open spec fn lower_bytes(s: Seq<u8>) -> Seq<u8> {
    s.map_values(|b: u8| lower_byte(b))
}

/// Compare two byte slices ignoring ASCII case.
pub fn bytes_eq_ignore_case(a: &[u8], b: &[u8]) -> (r: bool)
    ensures
        r == (lower_bytes(a@) == lower_bytes(b@)),
{
    if a.len() != b.len() {
        proof {
            assert(lower_bytes(a@).len() == a@.len());
            assert(lower_bytes(b@).len() == b@.len());
        }
        return false;
    }
    let n = a.len();
    for i in 0..n
        invariant
            n == a.len(),
            n == b.len(),
            forall|j: int| 0 <= j < i ==> lower_byte(a@[j]) == lower_byte(b@[j]),
        decreases n - i,
    {
        let ab = a[i];
        let bb = b[i];
        let al = if 65 <= ab && ab <= 90 { ab + 32 } else { ab };
        let bl = if 65 <= bb && bb <= 90 { bb + 32 } else { bb };
        if al != bl {
            proof {
                assert(lower_bytes(a@)[i as int] != lower_bytes(b@)[i as int]);
            }
            return false;
        }
    }
    proof {
        assert(lower_bytes(a@) =~= lower_bytes(b@));
    }
    true
}

/// Does the byte sequence `hay` contain `needle` as a contiguous run?
pub open spec fn contains_bytes(hay: Seq<u8>, needle: Seq<u8>) -> bool {
    exists|k: int|
        0 <= k && k + needle.len() <= hay.len() && #[trigger] hay.subrange(k, k + needle.len())
            == needle
}

/// Substring search over bytes, by direct scan.
pub fn find_bytes(hay: &[u8], needle: &[u8]) -> (r: bool)
    ensures
        r == contains_bytes(hay@, needle@),
{
    let n = hay.len();
    let m = needle.len();
    if m > n {
        proof {
            assert(!contains_bytes(hay@, needle@));
        }
        return false;
    }
    let last = n - m;
    let mut k: usize = 0;
    while k <= last
        invariant
            m <= n,
            last == n - m,
            n == hay.len(),
            m == needle.len(),
            k <= last + 1,
            forall|q: int|
                0 <= q < k ==> #[trigger] hay@.subrange(q, q + needle@.len()) != needle@,
        decreases last + 1 - k,
    {
        let mut i: usize = 0;
        let mut all_match = true;
        while i < m
            invariant
                m <= n,
                n == hay.len(),
                m == needle.len(),
                k <= n - m,
                i <= m,
                all_match == (forall|j: int| 0 <= j < i ==> hay@[k + j] == needle@[j]),
            decreases m - i,
        {
            if hay[k + i] != needle[i] {
                all_match = false;
                proof {
                    assert(!(forall|j: int| 0 <= j < i + 1 ==> hay@[k + j] == needle@[j]));
                }
                i = m;
            } else {
                i = i + 1;
            }
        }
        if all_match {
            proof {
                assert(hay@.subrange(k as int, k + needle@.len()) =~= needle@);
            }
            return true;
        }
        proof {
            assert(hay@.subrange(k as int, k + needle@.len()) != needle@) by {
                if hay@.subrange(k as int, k + needle@.len()) == needle@ {
                    assert(forall|j: int|
                        0 <= j < m ==> #[trigger] hay@.subrange(k as int, k + needle@.len())[j]
                            == hay@[k + j]);
                }
            }
        }
        k = k + 1;
    }
    proof {
        assert(!contains_bytes(hay@, needle@));
    }
    false
}

} // verus!
