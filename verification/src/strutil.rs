//! Small string and byte-sequence helpers shared across the crate.

use vstd::prelude::*;

verus! {

/// Relies on str's `PartialEq`: two string slices are equal exactly when
/// their character sequences are equal.
#[verifier::external_body]
pub(crate) fn str_eq(a: &str, b: &str) -> (r: bool)
    ensures
        r == (a@ == b@),
{
    a == b
}

/// What `String::from_utf8_lossy` returns for a byte sequence; it depends on
/// the bytes alone.
pub uninterp spec fn lossy_utf8(b: Seq<u8>) -> Seq<char>;

/// Relies on `String::from_utf8_lossy`: decodes bytes as UTF-8, replacing
/// invalid sequences; the result is a function of the bytes alone.
#[verifier::external_body]
pub(crate) fn bytes_to_string_lossy(b: &[u8]) -> (r: String)
    ensures
        r@ == lossy_utf8(b@),
{
    String::from_utf8_lossy(b).into_owned()
}

pub open spec fn is_prefix_of(p: Seq<char>, s: Seq<char>) -> bool {
    p.len() <= s.len() && p == s.subrange(0, p.len() as int)
}

pub fn has_prefix(s: &str, p: &str) -> (r: bool)
    ensures
        r == is_prefix_of(p@, s@),
{
    let n = p.unicode_len();
    if n > s.unicode_len() {
        return false;
    }
    let mut i: usize = 0;
    while i < n
        invariant
            n == p@.len(),
            n <= s@.len(),
            i <= n,
            forall|k: int| 0 <= k < i ==> p@[k] == s@[k],
        decreases n - i,
    {
        if p.get_char(i) != s.get_char(i) {
            assert(p@[i as int] != s@.subrange(0, n as int)[i as int]);
            return false;
        }
        i = i + 1;
    }
    assert(p@ =~= s@.subrange(0, n as int));
    true
}

pub open spec fn is_suffix_of(p: Seq<char>, s: Seq<char>) -> bool {
    p.len() <= s.len() && p == s.subrange(s.len() - p.len(), s.len() as int)
}

pub fn has_suffix(s: &str, p: &str) -> (r: bool)
    ensures
        r == is_suffix_of(p@, s@),
{
    let n = s.unicode_len();
    let m = p.unicode_len();
    if m > n {
        return false;
    }
    let start = n - m;
    let mut i: usize = 0;
    while i < m
        invariant
            n == s@.len(),
            m == p@.len(),
            m <= n,
            start == n - m,
            i <= m,
            forall|k: int| 0 <= k < i ==> p@[k] == s@[start + k],
        decreases m - i,
    {
        if p.get_char(i) != s.get_char(start + i) {
            assert(p@[i as int] != s@.subrange(n - m, n as int)[i as int]);
            return false;
        }
        i = i + 1;
    }
    assert(p@ =~= s@.subrange(n - m, n as int));
    true
}

pub fn find_char(s: &str, c: char) -> (r: Option<usize>)
    ensures
        match r {
            Some(i) => i < s@.len() && s@[i as int] == c && (forall|k: int|
                0 <= k < i ==> s@[k] != c),
            None => forall|k: int| 0 <= k < s@.len() ==> s@[k] != c,
        },
{
    let n = s.unicode_len();
    let mut i: usize = 0;
    while i < n
        invariant
            n == s@.len(),
            i <= n,
            forall|k: int| 0 <= k < i ==> s@[k] != c,
        decreases n - i,
    {
        if s.get_char(i) == c {
            return Some(i);
        }
        i = i + 1;
    }
    None
}

pub fn concat2(a: &str, b: &str) -> (r: String)
    ensures
        r@ == a@ + b@,
{
    let mut r = a.to_owned();
    r.append(b);
    r
}

pub fn concat3(a: &str, b: &str, c: &str) -> (r: String)
    ensures
        r@ == a@ + b@ + c@,
{
    let mut r = a.to_owned();
    r.append(b);
    r.append(c);
    r
}

/// The separators that split a list held in a single environment variable.
pub open spec fn is_sep(c: char) -> bool {
    c == ',' || c == '\n'
}

/// `s[i..j]` is one full separator-delimited segment of `s`.
pub open spec fn is_segment(s: Seq<char>, i: int, j: int) -> bool {
    &&& 0 <= i <= j <= s.len()
    &&& (i == 0 || is_sep(s[i - 1]))
    &&& (j == s.len() || is_sep(s[j]))
    &&& (forall|k: int| i <= k < j ==> !is_sep(s[k]))
}

/// Some separator-delimited segment of `s` is exactly `q`.
pub open spec fn sep_list_contains(s: Seq<char>, q: Seq<char>) -> bool {
    exists|i: int, j: int| is_segment(s, i, j) && s.subrange(i, j) == q
}

/// Does the comma- or newline-separated list `s` contain `q` as one entry?
pub fn list_contains_entry(s: &str, q: &str) -> (r: bool)
    ensures
        r == sep_list_contains(s@, q@),
{
    let n = s.unicode_len();
    let mut seg_start: usize = 0;
    let mut idx: usize = 0;
    while idx < n
        invariant
            n == s@.len(),
            seg_start <= idx <= n,
            seg_start == 0 || (seg_start >= 1 && is_sep(s@[seg_start as int - 1])),
            forall|k: int| seg_start <= k < idx ==> !is_sep(s@[k]),
            forall|i: int, j: int|
                is_segment(s@, i, j) && j < idx ==> s@.subrange(i, j) != q@,
        decreases n - idx,
    {
        let c = s.get_char(idx);
        if c == ',' || c == '\n' {
            let seg = s.substring_char(seg_start, idx);
            if str_eq(seg, q) {
                assert(is_segment(s@, seg_start as int, idx as int));
                return true;
            }
            proof {
                assert forall|i: int, j: int|
                    is_segment(s@, i, j) && j < idx + 1 implies s@.subrange(i, j) != q@ by {
                    if j == idx {
                        // The only segment ending at idx starts at seg_start.
                        if i < seg_start as int {
                            assert(i <= seg_start as int - 1 < j);
                            assert(!is_sep(s@[seg_start as int - 1]));
                        }
                        if i > seg_start as int {
                            assert(seg_start as int <= i - 1 < idx);
                            assert(!is_sep(s@[i - 1]));
                        }
                        assert(i == seg_start as int);
                    }
                }
            }
            seg_start = idx + 1;
        }
        idx = idx + 1;
    }
    let seg = s.substring_char(seg_start, n);
    if str_eq(seg, q) {
        assert(is_segment(s@, seg_start as int, n as int));
        return true;
    }
    assert forall|i: int, j: int| is_segment(s@, i, j) implies s@.subrange(i, j) != q@ by {
        if j == n {
            if i < seg_start as int {
                assert(i <= seg_start as int - 1 < j);
                assert(!is_sep(s@[seg_start as int - 1]));
            }
            if i > seg_start as int {
                assert(seg_start as int <= i - 1 < n);
                assert(!is_sep(s@[i - 1]));
            }
            assert(i == seg_start as int);
        }
    }
    false
}

pub open spec fn is_digit(c: char) -> bool {
    '0' <= c && c <= '9'
}

pub open spec fn digit_val(c: char) -> nat {
    (c as nat - '0' as nat) as nat
}

pub open spec fn all_digits(s: Seq<char>) -> bool {
    forall|k: int| 0 <= k < s.len() ==> is_digit(s[k])
}

/// The number that a sequence of decimal digits denotes.
pub open spec fn digits_val(s: Seq<char>) -> nat
    decreases s.len(),
{
    if s.len() == 0 {
        0
    } else {
        digits_val(s.drop_last()) * 10 + digit_val(s.last())
    }
}

proof fn lemma_digits_val_grows(s: Seq<char>, i: int)
    requires
        0 <= i <= s.len(),
    ensures
        digits_val(s.subrange(0, i)) <= digits_val(s),
    decreases s.len() - i,
{
    if i == s.len() {
        assert(s.subrange(0, i) =~= s);
    } else {
        lemma_digits_val_grows(s, i + 1);
        assert(s.subrange(0, i + 1).drop_last() =~= s.subrange(0, i));
        assert(digits_val(s.subrange(0, i + 1)) == digits_val(s.subrange(0, i)) * 10
            + digit_val(s[i]));
    }
}

/// Parse an unsigned decimal number. Accepts digits only: no sign, no
/// leading or trailing spaces.
pub fn parse_u64(s: &str) -> (r: Option<u64>)
    ensures
        r is Some <==> s@.len() > 0 && all_digits(s@) && digits_val(s@) <= u64::MAX,
        r matches Some(v) ==> v == digits_val(s@),
{
    let n = s.unicode_len();
    if n == 0 {
        return None;
    }
    let mut v: u64 = 0;
    let mut i: usize = 0;
    while i < n
        invariant
            n == s@.len(),
            i <= n,
            forall|k: int| 0 <= k < i ==> is_digit(s@[k]),
            v == digits_val(s@.subrange(0, i as int)),
        decreases n - i,
    {
        let c = s.get_char(i);
        let u = c as u32;
        if u < 48 || u > 57 {
            assert(!is_digit(s@[i as int]));
            return None;
        }
        let d: u64 = (u - 48) as u64;
        assert(d == digit_val(s@[i as int]));
        if v > (u64::MAX - d) / 10 {
            proof {
                let q = (u64::MAX - d) / 10;
                let rm = (u64::MAX - d) % 10;
                assert(10 * q + rm == u64::MAX - d);
                assert(v >= q + 1);
                assert(v * 10 + d >= (q + 1) * 10 + d) by (nonlinear_arith)
                    requires
                        v >= q + 1,
                        d >= 0,
                ;
                assert(s@.subrange(0, i as int + 1).drop_last() =~= s@.subrange(0, i as int));
                assert(digits_val(s@.subrange(0, i as int + 1)) == v * 10 + d);
                lemma_digits_val_grows(s@, i as int + 1);
                assert(digits_val(s@) > u64::MAX);
            }
            return None;
        }
        proof {
            let q = (u64::MAX - d) / 10;
            let rm = (u64::MAX - d) % 10;
            assert(10 * q + rm == u64::MAX - d);
            assert(v * 10 <= q * 10) by (nonlinear_arith)
                requires
                    v <= q,
            ;
            assert(s@.subrange(0, i as int + 1).drop_last() =~= s@.subrange(0, i as int));
        }
        v = v * 10 + d;
        i = i + 1;
    }
    assert(s@.subrange(0, n as int) =~= s@);
    Some(v)
}

} // verus!
