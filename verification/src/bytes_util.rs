use vstd::prelude::*;
use vstd::string::StringSliceAdditionalSpecFns;

verus! {

// ---------------------------------------------------------------------------
// Appending
// ---------------------------------------------------------------------------

/// Appends `src` to `out`.
pub fn push_bytes(out: &mut Vec<u8>, src: &[u8])
    ensures
        final(out)@ == old(out)@ + src@,
{
    out.extend_from_slice(src);
    assert(final(out)@ =~= old(out)@ + src@);
}

/// Appends the UTF-8 bytes of `s` to `out`.
pub fn push_str(out: &mut Vec<u8>, s: &str)
    ensures
        final(out)@ == old(out)@ + s.spec_bytes(),
{
    push_bytes(out, s.as_bytes());
}

/// The UTF-8 bytes of `s` as a vector.
pub fn str_bytes(s: &str) -> (r: Vec<u8>)
    ensures
        r@ == s.spec_bytes(),
{
    let mut v: Vec<u8> = Vec::new();
    push_str(&mut v, s);
    assert(v@ =~= s.spec_bytes());
    v
}

/// A copy of `s[lo..hi]`.
pub fn slice_vec(s: &[u8], lo: usize, hi: usize) -> (r: Vec<u8>)
    requires
        lo <= hi <= s@.len(),
    ensures
        r@ == s@.subrange(lo as int, hi as int),
{
    let mut v: Vec<u8> = Vec::new();
    push_bytes(&mut v, &s[lo..hi]);
    assert(v@ =~= s@.subrange(lo as int, hi as int));
    v
}

// ---------------------------------------------------------------------------
// Comparison and search
// ---------------------------------------------------------------------------

/// `s[at..]` starts with `pat`.
pub open spec fn has_at(s: Seq<u8>, at: int, pat: Seq<u8>) -> bool {
    0 <= at && at + pat.len() <= s.len() && s.subrange(at, at + pat.len()) == pat
}

/// Whether `pat` occurs in `s` at `at`.
pub fn matches_at(s: &[u8], at: usize, pat: &[u8]) -> (r: bool)
    ensures
        r == has_at(s@, at as int, pat@),
{
    if at > s.len() || pat.len() > s.len() - at {
        return false;
    }
    let end = at + pat.len();
    let mut k: usize = 0;
    while k < pat.len()
        invariant
            end == at + pat@.len(),
            end <= s@.len(),
            k <= pat@.len(),
            forall|j: int| 0 <= j < k ==> s@[at + j] == pat@[j],
        decreases pat@.len() - k,
    {
        if s[at + k] != pat[k] {
            assert(s@.subrange(at as int, at + pat@.len())[k as int] != pat@[k as int]);
            return false;
        }
        k = k + 1;
    }
    assert(s@.subrange(at as int, at + pat@.len()) =~= pat@);
    true
}

/// Byte equality.
pub fn bytes_eq(a: &[u8], b: &[u8]) -> (r: bool)
    ensures
        r == (a@ == b@),
{
    if a.len() != b.len() {
        return false;
    }
    let r = matches_at(a, 0, b);
    proof {
        if r {
            assert(a@ =~= a@.subrange(0, b@.len() as int));
        } else {
            if a@ == b@ {
                assert(a@.subrange(0, b@.len() as int) =~= b@);
            }
        }
    }
    r
}

/// Byte equality of bytes and the UTF-8 bytes of a literal.
pub fn eq_str(a: &[u8], b: &str) -> (r: bool)
    ensures
        r == (a@ == b.spec_bytes()),
{
    bytes_eq(a, b.as_bytes())
}

/// First position `>= from` where `pat` occurs.
pub open spec fn first_at_or_after(s: Seq<u8>, pat: Seq<u8>, from: int, r: Option<usize>) -> bool {
    match r {
        Some(p) => from <= p && has_at(s, p as int, pat) && forall|q: int|
            from <= q < p ==> !has_at(s, q, pat),
        None => forall|q: int| from <= q ==> !has_at(s, q, pat),
    }
}

/// The first occurrence of `pat` at or after `from`.
pub fn find_from(s: &[u8], pat: &[u8], from: usize) -> (r: Option<usize>)
    ensures
        first_at_or_after(s@, pat@, from as int, r),
{
    if from > s.len() {
        proof {
            assert forall|q: int| from <= q implies !has_at(s@, q, pat@) by {}
        }
        return None;
    }
    let mut p: usize = from;
    loop
        invariant
            from <= p <= s@.len(),
            forall|q: int| from <= q < p ==> !has_at(s@, q, pat@),
        decreases s@.len() - p,
    {
        if s.len() - p < pat.len() {
            proof {
                assert forall|q: int| from <= q implies !has_at(s@, q, pat@) by {}
            }
            return None;
        }
        if matches_at(s, p, pat) {
            return Some(p);
        }
        if p == s.len() {
            proof {
                assert forall|q: int| from <= q implies !has_at(s@, q, pat@) by {}
            }
            return None;
        }
        p = p + 1;
    }
}

/// The first occurrence of `pat` in `s`.
pub fn find(s: &[u8], pat: &[u8]) -> (r: Option<usize>)
    ensures
        first_at_or_after(s@, pat@, 0, r),
{
    find_from(s, pat, 0)
}

/// Last occurrence of `pat` in `s`.
pub open spec fn last_occurrence(s: Seq<u8>, pat: Seq<u8>, r: Option<usize>) -> bool {
    match r {
        Some(p) => has_at(s, p as int, pat) && forall|q: int| p < q ==> !has_at(s, q, pat),
        None => forall|q: int| !has_at(s, q, pat),
    }
}

/// The last occurrence of `pat` in `s`.
pub fn rfind(s: &[u8], pat: &[u8]) -> (r: Option<usize>)
    ensures
        last_occurrence(s@, pat@, r),
{
    if pat.len() > s.len() {
        return None;
    }
    let mut p: usize = s.len() - pat.len();
    loop
        invariant
            p <= s@.len() - pat@.len(),
            forall|q: int| p < q ==> !has_at(s@, q, pat@),
        decreases p,
    {
        if matches_at(s, p, pat) {
            return Some(p);
        }
        if p == 0 {
            proof {
                assert forall|q: int| !has_at(s@, q, pat@) by {
                    if q == 0 {
                    }
                }
            }
            return None;
        }
        p = p - 1;
    }
}

/// Whether `pat` occurs in `s`.
pub open spec fn occurs(s: Seq<u8>, pat: Seq<u8>) -> bool {
    exists|q: int| has_at(s, q, pat)
}

pub fn contains(s: &[u8], pat: &[u8]) -> (r: bool)
    ensures
        r == occurs(s@, pat@),
{
    let f = find(s, pat);
    match f {
        Some(p) => {
            assert(has_at(s@, p as int, pat@));
            true
        },
        None => {
            assert forall|q: int| !has_at(s@, q, pat@) by {
                if q < 0 {
                }
            }
            false
        },
    }
}

/// `s` starts with `pat`.
pub fn starts_with(s: &[u8], pat: &[u8]) -> (r: bool)
    ensures
        r == has_at(s@, 0, pat@),
{
    matches_at(s, 0, pat)
}

/// `s` ends with `pat`.
pub open spec fn ends_with_spec(s: Seq<u8>, pat: Seq<u8>) -> bool {
    pat.len() <= s.len() && has_at(s, s.len() - pat.len(), pat)
}

pub fn ends_with(s: &[u8], pat: &[u8]) -> (r: bool)
    ensures
        r == ends_with_spec(s@, pat@),
{
    if pat.len() > s.len() {
        return false;
    }
    matches_at(s, s.len() - pat.len(), pat)
}

// ---------------------------------------------------------------------------
// Whitespace (Unicode White_Space, on UTF-8 bytes)
// ---------------------------------------------------------------------------

/// The byte length of a white-space character that starts at `i`, or 0.
pub open spec fn ws_len(s: Seq<u8>, i: int) -> int {
    if 0 <= i < s.len() {
        let b = s[i];
        if (9 <= b <= 13) || b == 32 {
            1
        } else if b == 0xC2 && s.len() - i > 1 && (s[i + 1] == 0x85 || s[i + 1] == 0xA0) {
            2
        } else if i + 2 < s.len() && (
            (b == 0xE1 && s[i + 1] == 0x9A && s[i + 2] == 0x80)
            || (b == 0xE2 && s[i + 1] == 0x80 && (0x80 <= s[i + 2] <= 0x8A || s[i + 2] == 0xA8
                || s[i + 2] == 0xA9 || s[i + 2] == 0xAF))
            || (b == 0xE2 && s[i + 1] == 0x81 && s[i + 2] == 0x9F)
            || (b == 0xE3 && s[i + 1] == 0x80 && s[i + 2] == 0x80)) {
            3
        } else {
            0
        }
    } else {
        0
    }
}

/// The byte length of a white-space character that ends at `j`, or 0.
pub open spec fn ws_len_before(s: Seq<u8>, j: int) -> int {
    if j >= 1 && ws_len(s, j - 1) == 1 {
        1
    } else if j >= 2 && ws_len(s, j - 2) == 2 {
        2
    } else if j >= 3 && ws_len(s, j - 3) == 3 {
        3
    } else {
        0
    }
}

pub fn ws_len_at(s: &[u8], i: usize) -> (r: usize)
    ensures
        r == ws_len(s@, i as int),
{
    if i >= s.len() {
        return 0;
    }
    let b = s[i];
    if (9 <= b && b <= 13) || b == 32 {
        1
    } else if b == 0xC2 && s.len() - i > 1 && (s[i + 1] == 0x85 || s[i + 1] == 0xA0) {
        2
    } else if s.len() - i > 2 && ((b == 0xE1 && s[i + 1] == 0x9A && s[i + 2] == 0x80) || (b
        == 0xE2 && s[i + 1] == 0x80 && ((0x80 <= s[i + 2] && s[i + 2] <= 0x8A) || s[i + 2]
        == 0xA8 || s[i + 2] == 0xA9 || s[i + 2] == 0xAF)) || (b == 0xE2 && s[i + 1] == 0x81
        && s[i + 2] == 0x9F) || (b == 0xE3 && s[i + 1] == 0x80 && s[i + 2] == 0x80)) {
        3
    } else {
        0
    }
}

pub fn ws_len_before_at(s: &[u8], j: usize) -> (r: usize)
    ensures
        r == ws_len_before(s@, j as int),
{
    if j >= 1 && ws_len_at(s, j - 1) == 1 {
        1
    } else if j >= 2 && ws_len_at(s, j - 2) == 2 {
        2
    } else if j >= 3 && ws_len_at(s, j - 3) == 3 {
        3
    } else {
        0
    }
}

/// Start of `s[lo..hi]` once leading white space is skipped.
pub open spec fn trim_start_pos(s: Seq<u8>, lo: int, hi: int) -> int
    decreases hi - lo,
{
    if lo < hi && ws_len(s, lo) > 0 && lo + ws_len(s, lo) <= hi {
        trim_start_pos(s, lo + ws_len(s, lo), hi)
    } else {
        lo
    }
}

/// End of `s[lo..hi]` once trailing white space is dropped.
pub open spec fn trim_end_pos(s: Seq<u8>, lo: int, hi: int) -> int
    decreases hi - lo,
{
    if lo < hi && ws_len_before(s, hi) > 0 && hi - ws_len_before(s, hi) >= lo {
        trim_end_pos(s, lo, hi - ws_len_before(s, hi))
    } else {
        hi
    }
}

pub fn trim_start_from(s: &[u8], lo: usize, hi: usize) -> (r: usize)
    requires
        lo <= hi <= s@.len(),
    ensures
        r == trim_start_pos(s@, lo as int, hi as int),
        lo <= r <= hi,
{
    let mut p = lo;
    while p < hi
        invariant
            lo <= p <= hi <= s@.len(),
            trim_start_pos(s@, p as int, hi as int) == trim_start_pos(s@, lo as int, hi as int),
        decreases hi - p,
    {
        let w = ws_len_at(s, p);
        if w == 0 || w > hi - p {
            return p;
        }
        p = p + w;
    }
    p
}

pub fn trim_end_to(s: &[u8], lo: usize, hi: usize) -> (r: usize)
    requires
        lo <= hi <= s@.len(),
    ensures
        r == trim_end_pos(s@, lo as int, hi as int),
        lo <= r <= hi,
{
    let mut q = hi;
    while q > lo
        invariant
            lo <= q <= hi <= s@.len(),
            trim_end_pos(s@, lo as int, q as int) == trim_end_pos(s@, lo as int, hi as int),
        decreases q,
    {
        let w = ws_len_before_at(s, q);
        if w == 0 || q - w < lo {
            return q;
        }
        q = q - w;
    }
    q
}

/// The bounds of `s` with white space trimmed on both sides.
pub open spec fn trim_bounds(s: Seq<u8>) -> (int, int) {
    let a = trim_start_pos(s, 0, s.len() as int);
    (a, trim_end_pos(s, a, s.len() as int))
}

/// `s` with leading and trailing white space removed.
pub open spec fn trimmed(s: Seq<u8>) -> Seq<u8> {
    s.subrange(trim_bounds(s).0, trim_bounds(s).1)
}

pub fn trim(s: &[u8]) -> (r: Vec<u8>)
    ensures
        r@ == trimmed(s@),
{
    let a = trim_start_from(s, 0, s.len());
    let b = trim_end_to(s, a, s.len());
    slice_vec(s, a, b)
}

/// Whether `s` is empty once trimmed.
pub fn is_blank(s: &[u8]) -> (r: bool)
    ensures
        r == (trimmed(s@).len() == 0),
{
    let a = trim_start_from(s, 0, s.len());
    let b = trim_end_to(s, a, s.len());
    a == b
}

// ---------------------------------------------------------------------------
// Characters
// ---------------------------------------------------------------------------

/// A UTF-8 continuation byte.
pub open spec fn is_cont(b: u8) -> bool {
    0x80 <= b < 0xC0
}

/// Number of characters (non-continuation bytes) in `s[0..k]`.
pub open spec fn chars_in(s: Seq<u8>, k: int) -> nat
    decreases k,
{
    if k <= 0 {
        0
    } else {
        chars_in(s, k - 1) + if is_cont(s[k - 1]) { 0nat } else { 1nat }
    }
}

/// Number of characters of `s`.
pub open spec fn char_count(s: Seq<u8>) -> nat {
    chars_in(s, s.len() as int)
}

/// Whether `k` is a character boundary of `s`.
pub open spec fn at_boundary(s: Seq<u8>, k: int) -> bool {
    k == s.len() || (0 <= k < s.len() && !is_cont(s[k]))
}

pub fn count_chars(s: &[u8]) -> (r: usize)
    ensures
        r == char_count(s@),
{
    let mut k: usize = 0;
    let mut n: usize = 0;
    while k < s.len()
        invariant
            k <= s@.len(),
            n == chars_in(s@, k as int),
            n <= k,
        decreases s@.len() - k,
    {
        if !(0x80 <= s[k] && s[k] < 0xC0) {
            n = n + 1;
        }
        k = k + 1;
    }
    n
}

/// The byte length of the first `n` characters of `s` (all of `s` if it is shorter).
pub fn prefix_chars_len(s: &[u8], n: usize) -> (r: usize)
    ensures
        r <= s@.len(),
        chars_in(s@, r as int) == if char_count(s@) <= n { char_count(s@) } else { n as nat },
        at_boundary(s@, r as int),
        char_count(s@) <= n ==> r == s@.len(),
{
    let mut k: usize = 0;
    let mut c: usize = 0;
    while k < s.len()
        invariant
            k <= s@.len(),
            c == chars_in(s@, k as int),
            c <= n,
        decreases s@.len() - k,
    {
        if !(0x80 <= s[k] && s[k] < 0xC0) {
            if c == n {
                proof {
                    lemma_chars_in_mono(s@, k as int + 1, s@.len() as int);
                }
                return k;
            }
            c = c + 1;
        }
        k = k + 1;
    }
    k
}

pub proof fn lemma_chars_in_mono(s: Seq<u8>, a: int, b: int)
    requires
        a <= b,
    ensures
        chars_in(s, a) <= chars_in(s, b),
    decreases b - a,
{
    if a < b {
        lemma_chars_in_mono(s, a, b - 1);
    }
}

/// Keeps at most `max_chars` characters of `s`.
pub fn truncate_chars(s: &[u8], max_chars: usize) -> (r: Vec<u8>)
    ensures
        exists|k: int|
            0 <= k <= s@.len() && r@ == s@.subrange(0, k) && at_boundary(s@, k) && chars_in(s@, k)
                == if char_count(s@) <= max_chars { char_count(s@) } else { max_chars as nat },
        char_count(s@) <= max_chars ==> r@ == s@,
{
    let k = prefix_chars_len(s, max_chars);
    let r = slice_vec(s, 0, k);
    proof {
        if char_count(s@) <= max_chars {
            assert(r@ =~= s@);
        }
    }
    r
}

// ---------------------------------------------------------------------------
// Numbers
// ---------------------------------------------------------------------------

/// An ASCII decimal digit.
pub open spec fn is_digit(b: u8) -> bool {
    48 <= b <= 57
}

/// The value of the decimal digits `s[0..k]`.
pub open spec fn digits_value(s: Seq<u8>, k: int) -> nat
    decreases k,
{
    if k <= 0 {
        0
    } else {
        digits_value(s, k - 1) * 10 + (s[k - 1] - 48) as nat
    }
}

/// Whether `s` is a non-empty run of ASCII digits.
pub open spec fn all_digits(s: Seq<u8>) -> bool {
    s.len() > 0 && forall|i: int| 0 <= i < s.len() ==> is_digit(s[i])
}

/// `s` without one leading `+`.
pub open spec fn unsigned_body(s: Seq<u8>) -> Seq<u8> {
    if s.len() > 0 && s[0] == 43u8 { s.drop_first() } else { s }
}

/// What `str::parse::<u32>` gives for `s`: an optional `+`, then at least one
/// decimal digit, within the range of `u32`.
pub open spec fn spec_parse_u32(s: Seq<u8>) -> Option<u32> {
    let body = unsigned_body(s);
    if all_digits(body) && digits_value(body, body.len() as int) <= u32::MAX {
        Some(digits_value(body, body.len() as int) as u32)
    } else {
        None
    }
}

proof fn lemma_digits_value_grows(s: Seq<u8>, a: int, b: int)
    requires
        0 <= a <= b <= s.len(),
        forall|i: int| 0 <= i < s.len() ==> is_digit(s[i]),
    ensures
        digits_value(s, a) <= digits_value(s, b),
    decreases b - a,
{
    if a < b {
        lemma_digits_value_grows(s, a, b - 1);
    }
}

/// Parses an unsigned decimal number the way `str::parse::<u32>` does.
pub fn parse_u32(s: &[u8]) -> (r: Option<u32>)
    ensures
        r == spec_parse_u32(s@),
{
    let start: usize = if s.len() > 0 && s[0] == 43u8 { 1 } else { 0 };
    let ghost body = if s@.len() > 0 && s@[0] == 43u8 { s@.drop_first() } else { s@ };
    assert(body =~= s@.subrange(start as int, s@.len() as int));
    if start == s.len() {
        return None;
    }
    let mut k: usize = start;
    let mut v: u64 = 0;
    while k < s.len()
        invariant
            start <= k <= s@.len(),
            body == s@.subrange(start as int, s@.len() as int),
            body == unsigned_body(s@),
            forall|i: int| 0 <= i < k - start ==> is_digit(body[i]),
            v == digits_value(body, k - start),
            v <= u32::MAX,
        decreases s@.len() - k,
    {
        let b = s[k];
        if !(48 <= b && b <= 57) {
            assert(!is_digit(body[k - start]));
            assert(!all_digits(body));
            return None;
        }
        let nv = v * 10 + (b - 48) as u64;
        assert(body[k - start] == b);
        if nv > 4294967295 {
            proof {
                assert(digits_value(body, k - start + 1) == digits_value(body, k - start) * 10 + (body[k - start] - 48) as nat);
                assert(digits_value(body, k - start + 1) == nv);
                // once too large, a longer digit run stays too large
                if all_digits(body) {
                    lemma_digits_value_grows(body, k - start + 1, body.len() as int);
                    assert(digits_value(body, body.len() as int) > u32::MAX);
                }
            }
            return None;
        }
        v = nv;
        k = k + 1;
    }
    assert(all_digits(body));
    Some(v as u32)
}

/// The decimal digits of `n`.
pub open spec fn dec(n: nat) -> Seq<u8>
    decreases n,
{
    if n < 10 {
        seq![(n + 48) as u8]
    } else {
        dec(n / 10).push((n % 10 + 48) as u8)
    }
}

/// Appends the decimal digits of `n`.
pub fn push_usize(out: &mut Vec<u8>, n: usize)
    ensures
        final(out)@ == old(out)@ + dec(n as nat),
    decreases n,
{
    if n < 10 {
        out.push((n + 48) as u8);
        assert(final(out)@ =~= old(out)@ + dec(n as nat));
    } else {
        push_usize(out, n / 10);
        out.push((n % 10 + 48) as u8);
        assert(final(out)@ =~= old(out)@ + dec(n as nat));
    }
}

/// The decimal digits of `n` as a vector.
pub fn usize_dec(n: usize) -> (r: Vec<u8>)
    ensures
        r@ == dec(n as nat),
{
    let mut v: Vec<u8> = Vec::new();
    push_usize(&mut v, n);
    assert(v@ =~= dec(n as nat));
    v
}


/// Appends the decimal digits of a `u64`.
pub fn push_u64(out: &mut Vec<u8>, n: u64)
    ensures
        final(out)@ == old(out)@ + dec(n as nat),
    decreases n,
{
    if n < 10 {
        out.push((n + 48) as u8);
        assert(final(out)@ =~= old(out)@ + dec(n as nat));
    } else {
        push_u64(out, n / 10);
        out.push((n % 10 + 48) as u8);
        assert(final(out)@ =~= old(out)@ + dec(n as nat));
    }
}



/// The decimal text of a signed integer (`-` before a negative one).
pub open spec fn idec(n: int) -> Seq<u8> {
    if n < 0 {
        seq![45u8] + dec((-n) as nat)
    } else {
        dec(n as nat)
    }
}

/// Appends the decimal text of an `i64`.
pub fn push_i64(out: &mut Vec<u8>, n: i64)
    ensures
        final(out)@ == old(out)@ + idec(n as int),
{
    if n < 0 {
        out.push(45u8);
        let m: i128 = -(n as i128);
        push_u64(out, m as u64);
        assert(final(out)@ =~= old(out)@ + idec(n as int));
    } else {
        push_u64(out, n as u64);
    }
}

// ---------------------------------------------------------------------------
// First occurrence as a function, and splicing
// ---------------------------------------------------------------------------

/// The first position at or after `k` where `tag` occurs.
pub open spec fn first_occ(s: Seq<u8>, tag: Seq<u8>, k: int) -> Option<int>
    decreases s.len() + 1 - k,
{
    if k < 0 || k > s.len() {
        None
    } else if has_at(s, k, tag) {
        Some(k)
    } else {
        first_occ(s, tag, k + 1)
    }
}

pub proof fn lemma_first_occ(s: Seq<u8>, tag: Seq<u8>, from: int, r: Option<usize>)
    requires
        0 <= from,
        first_at_or_after(s, tag, from, r),
    ensures
        match r {
            Some(p) => first_occ(s, tag, from) == Some(p as int),
            None => first_occ(s, tag, from) is None,
        },
    decreases s.len() + 1 - from,
{
    if from <= s.len() {
        if !has_at(s, from, tag) {
            match r {
                Some(p) => {
                    if p as int != from {
                        lemma_first_occ(s, tag, from + 1, r);
                    }
                },
                None => {
                    lemma_first_occ(s, tag, from + 1, r);
                },
            }
        }
    }
}

pub proof fn lemma_first_occ_range(s: Seq<u8>, tag: Seq<u8>, k: int)
    ensures
        first_occ(s, tag, k) matches Some(p) ==> k <= p <= s.len() && has_at(s, p, tag),
    decreases s.len() + 1 - k,
{
    if 0 <= k <= s.len() && !has_at(s, k, tag) {
        lemma_first_occ_range(s, tag, k + 1);
    }
}

/// The first occurrence of `pat` at or after `from`, as [`first_occ`] states it.
pub fn find_occ(s: &[u8], pat: &[u8], from: usize) -> (r: Option<usize>)
    ensures
        match first_occ(s@, pat@, from as int) {
            Some(p) => r matches Some(x) && x as int == p,
            None => r is None,
        },
        r matches Some(x) ==> from <= x <= s@.len() && x + pat@.len() <= s@.len() && has_at(s@, x as int, pat@),
{
    let r = find_from(s, pat, from);
    proof {
        lemma_first_occ(s@, pat@, from as int, r);
    }
    r
}

/// `s` with `ins` put in place of `s[a..b]`.
pub open spec fn splice(s: Seq<u8>, a: int, b: int, ins: Seq<u8>) -> Seq<u8> {
    s.subrange(0, a) + ins + s.subrange(b, s.len() as int)
}

pub fn splice_vec(s: &[u8], a: usize, b: usize, ins: &[u8]) -> (r: Vec<u8>)
    requires
        a <= b <= s@.len(),
    ensures
        r@ == splice(s@, a as int, b as int, ins@),
{
    let mut out = slice_vec(s, 0, a);
    push_bytes(&mut out, ins);
    let tail = slice_vec(s, b, s.len());
    push_bytes(&mut out, tail.as_slice());
    assert(out@ =~= splice(s@, a as int, b as int, ins@));
    out
}


// ---------------------------------------------------------------------------
// Joining
// ---------------------------------------------------------------------------

/// The pieces `ps` one after another, `sep` between each two.
pub open spec fn joined(ps: Seq<Seq<u8>>, sep: Seq<u8>) -> Seq<u8>
    decreases ps.len(),
{
    if ps.len() == 0 {
        Seq::empty()
    } else if ps.len() == 1 {
        ps[0]
    } else {
        joined(ps.drop_last(), sep) + sep + ps.last()
    }
}

/// The contents of byte vectors.
pub open spec fn views(ps: Seq<Vec<u8>>) -> Seq<Seq<u8>> {
    ps.map_values(|p: Vec<u8>| p@)
}

/// The UTF-8 bytes of strings.
pub open spec fn str_views(ps: Seq<&str>) -> Seq<Seq<u8>> {
    ps.map_values(|p: &str| p.spec_bytes())
}

/// Joining one more piece.
pub proof fn lemma_joined_step(ps: Seq<Seq<u8>>, sep: Seq<u8>, i: int)
    requires
        0 <= i < ps.len(),
    ensures
        joined(ps.subrange(0, i + 1), sep) == if i == 0 {
            ps[0]
        } else {
            joined(ps.subrange(0, i), sep) + sep + ps[i]
        },
{
    assert(ps.subrange(0, i + 1).drop_last() =~= ps.subrange(0, i));
}

/// Appends the contents of `parts`, `sep` between each two.
pub fn push_joined(out: &mut Vec<u8>, parts: &Vec<Vec<u8>>, sep: &str)
    ensures
        final(out)@ == old(out)@ + joined(views(parts@), sep.spec_bytes()),
{
    let ghost ps = views(parts@);
    let mut i: usize = 0;
    while i < parts.len()
        invariant
            i <= parts@.len(),
            ps == views(parts@),
            out@ == old(out)@ + joined(ps.subrange(0, i as int), sep.spec_bytes()),
        decreases parts@.len() - i,
    {
        proof {
            lemma_joined_step(ps, sep.spec_bytes(), i as int);
        }
        if i > 0 {
            push_str(out, sep);
        }
        push_bytes(out, parts[i].as_slice());
        i = i + 1;
    }
    assert(ps.subrange(0, i as int) =~= ps);
}

/// Appends the bytes of `parts`, `sep` between each two.
pub fn push_joined_strs(out: &mut Vec<u8>, parts: &Vec<&str>, sep: &str)
    ensures
        final(out)@ == old(out)@ + joined(str_views(parts@), sep.spec_bytes()),
{
    let ghost ps = str_views(parts@);
    let mut i: usize = 0;
    while i < parts.len()
        invariant
            i <= parts@.len(),
            ps == str_views(parts@),
            out@ == old(out)@ + joined(ps.subrange(0, i as int), sep.spec_bytes()),
        decreases parts@.len() - i,
    {
        proof {
            lemma_joined_step(ps, sep.spec_bytes(), i as int);
        }
        if i > 0 {
            push_str(out, sep);
        }
        push_str(out, parts[i]);
        i = i + 1;
    }
    assert(ps.subrange(0, i as int) =~= ps);
}

} // verus!
