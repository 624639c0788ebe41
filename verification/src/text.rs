//! Byte-string primitives shared by the parsers, the header policy and the
//! response builders: searching, splitting, ASCII case folding and decimal
//! formatting, each tied to a spec-level definition.
use vstd::prelude::*;

verus! {

/// The bytes of an ASCII character sequence.
pub open spec fn bytes_of(s: Seq<char>) -> Seq<u8> {
    Seq::new(s.len(), |i| s[i] as u8)
}

/// An ASCII string literal as an owned byte vector.
pub fn str_to_bytes(s: &str) -> (r: Vec<u8>)
    requires
        s.is_ascii(),
    ensures
        r@ == bytes_of(s@),
{
    let b: &[u8] = s.as_bytes();
    proof {
        vstd::string::is_ascii_spec_bytes(s);
        assert(b@ =~= bytes_of(s@));
    }
    vstd::slice::slice_to_vec(b)
}

/// ASCII lower-casing of one byte.
pub open spec fn lower_byte(b: u8) -> u8 {
    if 65 <= b && b <= 90 {
        (b + 32) as u8
    } else {
        b
    }
}

/// ASCII lower-casing of a byte string.
pub open spec fn lower_bytes(s: Seq<u8>) -> Seq<u8> {
    Seq::new(s.len(), |i| lower_byte(s[i]))
}

/// Lower-cases the ASCII letters of `v`, leaving every other byte alone.
pub fn lowercase_bytes(v: &[u8]) -> (r: Vec<u8>)
    ensures
        r@ == lower_bytes(v@),
{
    let mut out: Vec<u8> = Vec::new();
    let mut i: usize = 0;
    while i < v.len()
        invariant
            i <= v@.len(),
            out@ =~= lower_bytes(v@).take(i as int),
        decreases v@.len() - i,
    {
        let b: u8 = v[i];
        if 65 <= b && b <= 90 {
            out.push(b + 32);
        } else {
            out.push(b);
        }
        i = i + 1;
    }
    proof {
        assert(out@ =~= lower_bytes(v@));
    }
    out
}

/// Whether `p` occurs in `s` starting at index `i`.
pub open spec fn match_at(s: Seq<u8>, p: Seq<u8>, i: int) -> bool {
    0 <= i && i + p.len() <= s.len() && s.subrange(i, i + p.len() as int) == p
}

/// The least index at or after `i` where `p` occurs in `s`, if any.
pub open spec fn find_sub_from(s: Seq<u8>, p: Seq<u8>, i: int) -> Option<int>
    decreases s.len() - i + 1,
{
    if i + p.len() > s.len() || i < 0 {
        Option::None
    } else if match_at(s, p, i) {
        Option::Some(i)
    } else {
        find_sub_from(s, p, i + 1)
    }
}

/// The least index where `p` occurs in `s`, if any.
pub open spec fn find_sub(s: Seq<u8>, p: Seq<u8>) -> Option<int> {
    find_sub_from(s, p, 0)
}

/// Whether `p` occurs anywhere in `s`.
pub open spec fn contains_sub(s: Seq<u8>, p: Seq<u8>) -> bool {
    find_sub(s, p) is Some
}

/// Compares `v[i .. i + p.len()]` with `p`.
pub fn eq_at(v: &[u8], p: &[u8], i: usize) -> (r: bool)
    requires
        i + p@.len() <= v@.len(),
    ensures
        r == match_at(v@, p@, i as int),
{
    let vlen: usize = v.len();
    let mut j: usize = 0;
    while j < p.len()
        invariant
            j <= p@.len(),
            i + p@.len() <= v@.len(),
            v@.len() == vlen,
            forall|k: int| 0 <= k < j ==> v@[i + k] == p@[k],
        decreases p@.len() - j,
    {
        if v[i + j] != p[j] {
            proof {
                assert(v@.subrange(i as int, i + p@.len() as int)[j as int] != p@[j as int]);
            }
            return false;
        }
        j = j + 1;
    }
    proof {
        assert(v@.subrange(i as int, i + p@.len() as int) =~= p@);
    }
    true
}

/// Finds the least index at or after `from` where `p` occurs in `v`.
pub fn find_in_bytes_from(v: &[u8], p: &[u8], from: usize) -> (r: Option<usize>)
    ensures
        match r {
            Option::Some(i) => find_sub_from(v@, p@, from as int) == Option::Some(i as int),
            Option::None => find_sub_from(v@, p@, from as int) is None,
        },
    decreases v@.len() - from,
{
    if from > v.len() || p.len() > v.len() - from {
        Option::None
    } else if eq_at(v, p, from) {
        Option::Some(from)
    } else {
        proof {
            if p@.len() == 0 {
                assert(v@.subrange(from as int, from as int) =~= p@);
            }
        }
        find_in_bytes_from(v, p, from + 1)
    }
}

/// Finds the least index where `p` occurs in `v`.
pub fn find_in_bytes(v: &[u8], p: &[u8]) -> (r: Option<usize>)
    ensures
        match r {
            Option::Some(i) => find_sub(v@, p@) == Option::Some(i as int),
            Option::None => find_sub(v@, p@) is None,
        },
{
    find_in_bytes_from(v, p, 0)
}

/// Whether `p` occurs anywhere in `v`.
pub fn bytes_contain(v: &[u8], p: &[u8]) -> (r: bool)
    ensures
        r == contains_sub(v@, p@),
{
    match find_in_bytes(v, p) {
        Option::Some(_) => true,
        Option::None => false,
    }
}

/// Whether `s` begins with `p`.
pub open spec fn starts_with(s: Seq<u8>, p: Seq<u8>) -> bool {
    p.len() <= s.len() && s.take(p.len() as int) == p
}

/// Whether `v` begins with `p`.
pub fn bytes_start_with(v: &[u8], p: &[u8]) -> (r: bool)
    ensures
        r == starts_with(v@, p@),
{
    if p.len() > v.len() {
        proof {
            assert(!starts_with(v@, p@));
        }
        false
    } else {
        proof {
            assert(v@.subrange(0, p@.len() as int) =~= v@.take(p@.len() as int));
        }
        eq_at(v, p, 0)
    }
}

/// Compares two byte strings for equality.
pub fn bytes_equal(a: &[u8], b: &[u8]) -> (r: bool)
    ensures
        r == (a@ == b@),
{
    if a.len() != b.len() {
        return false;
    }
    proof {
        assert(a@.subrange(0, b@.len() as int) =~= a@);
    }
    let r = eq_at(a, b, 0);
    proof {
        if a@.subrange(0, b@.len() as int) == b@ {
            assert(a@ =~= b@);
        }
    }
    r
}

/// Appends all of `src` to `dst`.
pub fn push_all(dst: &mut Vec<u8>, src: &[u8])
    ensures
        final(dst)@ == old(dst)@ + src@,
{
    let mut i: usize = 0;
    while i < src.len()
        invariant
            i <= src@.len(),
            dst@ =~= old(dst)@ + src@.take(i as int),
        decreases src@.len() - i,
    {
        dst.push(src[i]);
        i = i + 1;
    }
    proof {
        assert(dst@ =~= old(dst)@ + src@);
    }
}

/// The parts of `s` between occurrences of the separator `sep`, in order;
/// a string without the separator is one part, so the result is never empty.
pub open spec fn split_on(s: Seq<u8>, sep: u8) -> Seq<Seq<u8>>
    decreases s.len(),
{
    match find_sub(s, seq![sep]) {
        Option::None => seq![s],
        Option::Some(i) => if 0 <= i < s.len() {
            seq![s.take(i)] + split_on(s.skip(i + 1), sep)
        } else {
            seq![s]
        },
    }
}

/// Splits `v` at each occurrence of `sep`, like `str::split` on one byte.
pub fn split_bytes_on(v: &[u8], sep: u8) -> (r: Vec<Vec<u8>>)
    ensures
        r@.len() == split_on(v@, sep).len(),
        forall|k: int| 0 <= k < r@.len() ==> r@[k]@ == #[trigger] split_on(v@, sep)[k],
    decreases v@.len(),
{
    let pat: [u8; 1] = [sep];
    proof {
        assert(pat@ =~= seq![sep]);
    }
    match find_in_bytes(v, pat.as_slice()) {
        Option::None => {
            let mut r: Vec<Vec<u8>> = Vec::new();
            r.push(vstd::slice::slice_to_vec(v));
            r
        },
        Option::Some(i) => {
            let n: usize = v.len();
            proof {
                lemma_find_sub_bounds(v@, seq![sep], 0);
                assert(i + 1 <= n);
            }
            let head: Vec<u8> = vstd::slice::slice_to_vec(vstd::slice::slice_subrange(v, 0, i));
            let rest: &[u8] = vstd::slice::slice_subrange(v, i + 1, n);
            let mut r: Vec<Vec<u8>> = split_bytes_on(rest, sep);
            let ghost tail_view = r@;
            r.insert(0, head);
            proof {
                assert(v@.subrange(0, i as int) =~= v@.take(i as int));
                assert(rest@ =~= v@.skip(i + 1));
                assert(r@ =~= seq![head] + tail_view);
                assert(split_on(v@, sep) =~= seq![v@.take(i as int)] + split_on(
                    v@.skip(i + 1),
                    sep,
                ));
                assert forall|k: int| 0 <= k < r@.len() implies r@[k]@ == #[trigger] split_on(
                    v@,
                    sep,
                )[k] by {
                    if k == 0 {
                        assert(r@[0] == head);
                    } else {
                        assert(r@[k] == tail_view[k - 1]);
                        assert(tail_view[k - 1]@ == split_on(rest@, sep)[k - 1]);
                    }
                }
            }
            r
        },
    }
}

/// A found occurrence lies within the string.
pub proof fn lemma_find_sub_bounds(s: Seq<u8>, p: Seq<u8>, i: int)
    ensures
        find_sub_from(s, p, i) matches Option::Some(j) ==> i <= j && j + p.len() <= s.len()
            && match_at(s, p, j),
    decreases s.len() - i + 1,
{
    if i + p.len() <= s.len() && i >= 0 && !match_at(s, p, i) {
        lemma_find_sub_bounds(s, p, i + 1);
    }
}

/// `s` without any trailing CRLF pairs.
pub open spec fn spec_trim_crlf_end(s: Seq<u8>) -> Seq<u8>
    decreases s.len(),
{
    if s.len() >= 2 && s[s.len() - 2] == 13 && s[s.len() - 1] == 10 {
        spec_trim_crlf_end(s.take(s.len() - 2))
    } else {
        s
    }
}

/// Removes trailing CRLF pairs, as a header line arriving from the wire
/// carries them.
pub fn trim_crlf_end(v: &[u8]) -> (r: Vec<u8>)
    ensures
        r@ == spec_trim_crlf_end(v@),
    decreases v@.len(),
{
    let n: usize = v.len();
    if n >= 2 && v[n - 2] == 13 && v[n - 1] == 10 {
        let sub: &[u8] = vstd::slice::slice_subrange(v, 0, n - 2);
        proof {
            assert(sub@ =~= v@.take(v@.len() - 2));
        }
        trim_crlf_end(sub)
    } else {
        vstd::slice::slice_to_vec(v)
    }
}

/// Whether every byte of `p` is a decimal digit.
pub open spec fn all_digits(p: Seq<u8>) -> bool {
    forall|k: int| 0 <= k < p.len() ==> 48 <= #[trigger] p[k] <= 57
}

/// The number the digit string `p` denotes.
pub open spec fn digits_value(p: Seq<u8>) -> int
    decreases p.len(),
{
    if p.len() == 0 {
        0
    } else {
        digits_value(p.drop_last()) * 10 + (p.last() - 48)
    }
}

pub open spec fn pow10(n: nat) -> int
    decreases n,
{
    if n == 0 {
        1
    } else {
        10 * pow10((n - 1) as nat)
    }
}

proof fn lemma_pow10_pos(n: nat)
    ensures
        pow10(n) >= 1,
    decreases n,
{
    if n > 0 {
        lemma_pow10_pos((n - 1) as nat);
    }
}

proof fn lemma_pow10_le(a: nat, b: nat)
    requires
        a <= b,
    ensures
        pow10(a) <= pow10(b),
    decreases b,
{
    if a < b {
        lemma_pow10_le(a, (b - 1) as nat);
        lemma_pow10_pos((b - 1) as nat);
    }
}

/// Checks that `p` is one to `maxlen` digits denoting at most `limit`.
pub fn digits_within(p: &[u8], maxlen: usize, limit: u32) -> (r: bool)
    requires
        1 <= maxlen <= 5,
    ensures
        r == (1 <= p@.len() <= maxlen && all_digits(p@) && digits_value(p@) <= limit),
{
    if p.len() < 1 || p.len() > maxlen {
        return false;
    }
    let mut i: usize = 0;
    let mut acc: u32 = 0;
    while i < p.len()
        invariant
            1 <= p@.len() <= 5,
            i <= p@.len(),
            all_digits(p@.take(i as int)),
            acc == digits_value(p@.take(i as int)),
            acc < pow10(i as nat),
        decreases p@.len() - i,
    {
        let b: u8 = p[i];
        if b < 48 || b > 57 {
            proof {
                assert(!all_digits(p@));
            }
            return false;
        }
        proof {
            assert(pow10(0) == 1);
            assert(pow10(1) == 10);
            assert(pow10(2) == 100);
            assert(pow10(3) == 1000);
            assert(pow10(4) == 10000);
            assert(pow10(5) == 100000);
            lemma_pow10_le(i as nat, 4);
            assert(pow10((i + 1) as nat) == 10 * pow10(i as nat));
            lemma_pow10_le((i + 1) as nat, 5);
            assert(p@.take(i as int + 1).drop_last() =~= p@.take(i as int));
            assert(p@.take(i as int + 1).last() == p@[i as int]);
            assert(all_digits(p@.take(i as int + 1)));
        }
        acc = acc * 10 + (b - 48) as u32;
        i = i + 1;
    }
    proof {
        assert(p@.take(i as int) =~= p@);
    }
    acc <= limit
}

/// A valid port: one to five digits denoting at most 65535.
pub open spec fn valid_port(p: Seq<u8>) -> bool {
    1 <= p.len() <= 5 && all_digits(p) && digits_value(p) <= 65535
}

/// Checks a port field.
pub fn is_valid_port(p: &[u8]) -> (r: bool)
    ensures
        r == valid_port(p@),
{
    digits_within(p, 5, 65535)
}

/// A valid IPv4 octet: one to three digits denoting at most 255, with no
/// leading zero, as the standard address grammar has it.
pub open spec fn valid_v4_octet(p: Seq<u8>) -> bool {
    1 <= p.len() <= 3 && all_digits(p) && digits_value(p) <= 255 && (p.len() == 1 || p[0] != 48)
}

/// Checks one IPv4 octet.
pub fn is_valid_v4_octet(p: &[u8]) -> (r: bool)
    ensures
        r == valid_v4_octet(p@),
{
    if p.len() > 1 && p[0] == 48 {
        return false;
    }
    digits_within(p, 3, 255)
}

/// A valid dotted-quad IPv4 host: exactly four valid octets separated by
/// dots.
pub open spec fn valid_v4_host(h: Seq<u8>) -> bool {
    let parts = split_on(h, 46);
    parts.len() == 4 && (forall|k: int| 0 <= k < parts.len() ==> valid_v4_octet(#[trigger] parts[k]))
}

/// Checks a dotted-quad IPv4 host.
pub fn is_valid_v4_host(h: &[u8]) -> (r: bool)
    ensures
        r == valid_v4_host(h@),
{
    let parts: Vec<Vec<u8>> = split_bytes_on(h, 46);
    if parts.len() != 4 {
        return false;
    }
    let mut k: usize = 0;
    while k < parts.len()
        invariant
            k <= parts@.len(),
            parts@.len() == split_on(h@, 46).len(),
            forall|q: int| 0 <= q < parts@.len() ==> parts@[q]@ == #[trigger] split_on(h@, 46)[q],
            forall|q: int| 0 <= q < k ==> valid_v4_octet(#[trigger] split_on(h@, 46)[q]),
        decreases parts@.len() - k,
    {
        if !is_valid_v4_octet(parts[k].as_slice()) {
            proof {
                assert(!valid_v4_octet(split_on(h@, 46)[k as int]));
            }
            return false;
        }
        k = k + 1;
    }
    true
}

/// The decimal digits of `n`, most significant first.
pub open spec fn decimal(n: nat) -> Seq<u8>
    decreases n,
{
    if n < 10 {
        seq![(48 + n) as u8]
    } else {
        decimal(n / 10) + seq![(48 + n % 10) as u8]
    }
}

/// Formats `n` in decimal.
pub fn format_decimal(n: u64) -> (r: Vec<u8>)
    ensures
        r@ == decimal(n as nat),
{
    let mut out: Vec<u8> = Vec::new();
    let mut m: u64 = n;
    let d: u8 = (m % 10) as u8;
    out.push(48 + d);
    m = m / 10;
    proof {
        if m > 0 {
            assert(decimal(n as nat) =~= decimal(m as nat) + out@);
        } else {
            assert(decimal(n as nat) =~= out@);
        }
    }
    while m > 0
        invariant
            m > 0 ==> decimal(n as nat) =~= decimal(m as nat) + out@,
            m == 0 ==> decimal(n as nat) =~= out@,
        decreases m,
    {
        let d2: u8 = (m % 10) as u8;
        out.insert(0, 48 + d2);
        m = m / 10;
        proof {
            if m > 0 {
                assert(decimal(n as nat) =~= decimal(m as nat) + out@);
            } else {
                assert(decimal(n as nat) =~= out@);
            }
        }
    }
    out
}

} // verus!
