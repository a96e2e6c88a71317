use vstd::prelude::*;

verus! {

/// True for the ten ASCII decimal digits.
pub open spec fn is_digit(c: char) -> bool {
    '0' <= c && c <= '9'
}

/// Numeric value of an ASCII decimal digit.
pub open spec fn digit_val(c: char) -> int {
    c as int - '0' as int
}

/// Every character of `s` is an ASCII decimal digit.
pub open spec fn all_digits(s: Seq<char>) -> bool {
    forall|i: int| 0 <= i < s.len() ==> is_digit(#[trigger] s[i])
}

/// Value of a decimal digit string, most significant digit first.
pub open spec fn digits_val(s: Seq<char>) -> int
    decreases s.len(),
{
    if s.len() == 0 {
        0
    } else {
        digits_val(s.drop_last()) * 10 + digit_val(s.last())
    }
}

pub proof fn lemma_digits_val_nonneg(s: Seq<char>)
    requires
        all_digits(s),
    ensures
        digits_val(s) >= 0,
    decreases s.len(),
{
    if s.len() > 0 {
        assert(forall|i: int| 0 <= i < s.drop_last().len() ==> is_digit(#[trigger] s.drop_last()[i]));
        lemma_digits_val_nonneg(s.drop_last());
    }
}

/// The value of a digit string never falls when more digits are appended.
pub proof fn lemma_digits_val_prefix_le(s: Seq<char>, i: int)
    requires
        all_digits(s),
        0 <= i <= s.len(),
    ensures
        digits_val(s.take(i)) <= digits_val(s),
    decreases s.len() - i,
{
    if i == s.len() {
        assert(s.take(i) =~= s);
    } else {
        assert(s.take(i + 1).drop_last() =~= s.take(i));
        assert(s.take(i + 1).last() == s[i]);
        assert(forall|j: int| 0 <= j < s.take(i).len() ==> is_digit(#[trigger] s.take(i)[j]));
        lemma_digits_val_nonneg(s.take(i));
        assert(digits_val(s.take(i)) <= digits_val(s.take(i + 1)));
        lemma_digits_val_prefix_le(s, i + 1);
    }
}

/// What parsing a selector token as a 16-bit unsigned integer yields:
/// the token must be non-empty, all digits, and denote a value within range.
pub open spec fn parse_u16_spec(s: Seq<char>) -> Option<u16> {
    if s.len() > 0 && all_digits(s) && digits_val(s) <= 0xffff {
        Some(digits_val(s) as u16)
    } else {
        None
    }
}

/// Parse a whole token as a 16-bit unsigned integer; any trailing
/// non-digit character or out-of-range value yields `None`.
pub fn parse_u16(s: &str) -> (r: Option<u16>)
    ensures
        r == parse_u16_spec(s@),
{
    let n = s.unicode_len();
    if n == 0 {
        return None;
    }
    let mut acc: u32 = 0;
    let mut i: usize = 0;
    while i < n
        invariant
            0 <= i <= n,
            n == s@.len(),
            acc <= 0xffff,
            acc == digits_val(s@.take(i as int)),
            forall|k: int| 0 <= k < i ==> is_digit(#[trigger] s@[k]),
        decreases n - i,
    {
        let c = s.get_char(i);
        let u = c as u32;
        if u < 48 || u > 57 {
            assert(!is_digit(s@[i as int]));
            return None;
        }
        assert(is_digit(s@[i as int]));
        let d = u - 48;
        proof {
            assert(s@.take(i + 1).drop_last() =~= s@.take(i as int));
            assert(s@.take(i + 1).last() == s@[i as int]);
        }
        acc = acc * 10 + d;
        assert(acc == digits_val(s@.take(i + 1)));
        if acc > 0xffff {
            proof {
                if all_digits(s@) {
                    lemma_digits_val_prefix_le(s@, i + 1);
                }
            }
            return None;
        }
        i += 1;
    }
    assert(s@.take(n as int) =~= s@);
    Some(acc as u16)
}

/// ASCII lowercasing of a single character; everything outside `'A'..='Z'`
/// is left unchanged.
pub open spec fn lower_char(c: char) -> char {
    if 'A' <= c && c <= 'Z' {
        ((c as u8) + 32) as char
    } else {
        c
    }
}

/// ASCII lowercasing of a character sequence.
pub open spec fn lower_seq(s: Seq<char>) -> Seq<char> {
    Seq::new(s.len(), |i: int| lower_char(s[i]))
}

pub fn lower_char_ex(c: char) -> (r: char)
    ensures
        r == lower_char(c),
{
    let u = c as u32;
    if 65 <= u && u <= 90 {
        ((u + 32) as u8) as char
    } else {
        c
    }
}

/// Length of the longest common prefix of two sequences.
pub open spec fn lcp(a: Seq<char>, b: Seq<char>) -> int
    decreases a.len(),
{
    if a.len() == 0 || b.len() == 0 || a[0] != b[0] {
        0
    } else {
        1 + lcp(a.drop_first(), b.drop_first())
    }
}

/// Length of the longest common suffix of two sequences.
pub open spec fn lcs(a: Seq<char>, b: Seq<char>) -> int
    decreases a.len(),
{
    if a.len() == 0 || b.len() == 0 || a.last() != b.last() {
        0
    } else {
        1 + lcs(a.drop_last(), b.drop_last())
    }
}

pub proof fn lemma_lcp_bounds(a: Seq<char>, b: Seq<char>)
    ensures
        0 <= lcp(a, b) <= a.len(),
        lcp(a, b) <= b.len(),
    decreases a.len(),
{
    if !(a.len() == 0 || b.len() == 0 || a[0] != b[0]) {
        lemma_lcp_bounds(a.drop_first(), b.drop_first());
    }
}

pub proof fn lemma_lcs_bounds(a: Seq<char>, b: Seq<char>)
    ensures
        0 <= lcs(a, b) <= a.len(),
        lcs(a, b) <= b.len(),
    decreases a.len(),
{
    if !(a.len() == 0 || b.len() == 0 || a.last() != b.last()) {
        lemma_lcs_bounds(a.drop_last(), b.drop_last());
    }
}

/// How much of the shorter token is covered by the common prefix and
/// the common suffix together (the two may not overlap).
pub open spec fn overlap(a: Seq<char>, b: Seq<char>) -> int {
    let o = lcp(a, b) + lcs(a, b);
    let m = if a.len() <= b.len() {
        a.len() as int
    } else {
        b.len() as int
    };
    if o <= m {
        o
    } else {
        m
    }
}

/// Similarity of two tokens on a scale of 0 to 1000: the covered
/// share of the combined length (a prefix/suffix Dice coefficient).
/// A single-character edit anywhere in a token keeps the score high.
pub open spec fn similarity(a: Seq<char>, b: Seq<char>) -> int {
    if a.len() + b.len() == 0 {
        0
    } else {
        2000 * overlap(a, b) / (a.len() + b.len()) as int
    }
}

pub proof fn lemma_similarity_bounds(a: Seq<char>, b: Seq<char>)
    ensures
        0 <= similarity(a, b) <= 1000,
{
    if a.len() + b.len() != 0 {
        lemma_lcp_bounds(a, b);
        lemma_lcs_bounds(a, b);
        let o = overlap(a, b);
        let d = (a.len() + b.len()) as int;
        assert(0 <= o);
        assert(2 * o <= d);
        vstd::arithmetic::div_mod::lemma_div_pos_is_pos(2000 * o, d);
        vstd::arithmetic::div_mod::lemma_div_is_ordered(2000 * o, 1000 * d, d);
        vstd::arithmetic::div_mod::lemma_div_multiples_vanish(1000, d);
        assert(d * 1000 == 1000 * d);
    }
}

/// Longest common prefix of the two tokens, compared case-insensitively.
pub fn lcp_lower(a: &str, b: &str) -> (r: usize)
    ensures
        r == lcp(lower_seq(a@), lower_seq(b@)),
{
    let ghost la = lower_seq(a@);
    let ghost lb = lower_seq(b@);
    let na = a.unicode_len();
    let nb = b.unicode_len();
    let m = if na <= nb {
        na
    } else {
        nb
    };
    let mut i: usize = 0;
    assert(la.skip(0) =~= la && lb.skip(0) =~= lb);
    while i < m
        invariant
            0 <= i <= m,
            na == a@.len(),
            nb == b@.len(),
            m == if na <= nb { na } else { nb },
            la == lower_seq(a@),
            lb == lower_seq(b@),
            lcp(la, lb) == i + lcp(la.skip(i as int), lb.skip(i as int)),
        decreases m - i,
    {
        proof {
            assert(la.skip(i as int)[0] == la[i as int]);
            assert(lb.skip(i as int)[0] == lb[i as int]);
            assert(la.skip(i as int).drop_first() =~= la.skip(i + 1));
            assert(lb.skip(i as int).drop_first() =~= lb.skip(i + 1));
        }
        let ca = lower_char_ex(a.get_char(i));
        let cb = lower_char_ex(b.get_char(i));
        if ca != cb {
            return i;
        }
        i += 1;
    }
    assert(la.skip(i as int).len() == 0 || lb.skip(i as int).len() == 0);
    m
}

/// Longest common suffix of the two tokens, compared case-insensitively.
pub fn lcs_lower(a: &str, b: &str) -> (r: usize)
    ensures
        r == lcs(lower_seq(a@), lower_seq(b@)),
{
    let ghost la = lower_seq(a@);
    let ghost lb = lower_seq(b@);
    let na = a.unicode_len();
    let nb = b.unicode_len();
    let m = if na <= nb {
        na
    } else {
        nb
    };
    let mut i: usize = 0;
    assert(la.take(na as int) =~= la && lb.take(nb as int) =~= lb);
    while i < m
        invariant
            0 <= i <= m,
            na == a@.len(),
            nb == b@.len(),
            m == if na <= nb { na } else { nb },
            la == lower_seq(a@),
            lb == lower_seq(b@),
            lcs(la, lb) == i + lcs(la.take(na - i), lb.take(nb - i)),
        decreases m - i,
    {
        proof {
            assert(la.take(na - i).last() == la[na - i - 1]);
            assert(lb.take(nb - i).last() == lb[nb - i - 1]);
            assert(la.take(na - i).drop_last() =~= la.take(na - i - 1));
            assert(lb.take(nb - i).drop_last() =~= lb.take(nb - i - 1));
        }
        let ca = lower_char_ex(a.get_char(na - i - 1));
        let cb = lower_char_ex(b.get_char(nb - i - 1));
        if ca != cb {
            return i;
        }
        i += 1;
    }
    assert(la.take(na - i).len() == 0 || lb.take(nb - i).len() == 0);
    m
}

/// Similarity of two tokens, compared case-insensitively.
pub fn similarity_ex(a: &str, b: &str) -> (r: u32)
    ensures
        r == similarity(lower_seq(a@), lower_seq(b@)),
        r <= 1000,
{
    let ghost la = lower_seq(a@);
    let ghost lb = lower_seq(b@);
    proof {
        lemma_similarity_bounds(la, lb);
        lemma_lcp_bounds(la, lb);
        lemma_lcs_bounds(la, lb);
    }
    let na = a.unicode_len();
    let nb = b.unicode_len();
    if na == 0 && nb == 0 {
        return 0;
    }
    let p = lcp_lower(a, b);
    let s = lcs_lower(a, b);
    let m: usize = if na <= nb {
        na
    } else {
        nb
    };
    let t: u128 = p as u128 + s as u128;
    let o: u128 = if t <= m as u128 {
        t
    } else {
        m as u128
    };
    assert(o == overlap(la, lb));
    let denom: u128 = na as u128 + nb as u128;
    let num: u128 = 2000 * o;
    let q: u128 = num / denom;
    assert(q == similarity(la, lb));
    q as u32
}

} // verus!
