//! Decimal number texts: the `-?digits(.digits*)?` grammar that a
//! latitude/longitude component must match, and comparison of such a text's
//! magnitude against an integer bound, both with exact specifications.

use vstd::prelude::*;

verus! {

pub open spec fn is_digit(c: char) -> bool {
    '0' <= c && c <= '9'
}

pub open spec fn digit_val(c: char) -> int {
    c as int - '0' as int
}

pub fn digit_char(c: char) -> (r: bool)
    ensures
        r == is_digit(c),
{
    '0' <= c && c <= '9'
}

pub open spec fn all_digits(s: Seq<char>) -> bool {
    forall|i: int| 0 <= i < s.len() ==> is_digit(s[i])
}

/// `s` splits at `d` into a non-empty run of digits, optionally followed by
/// a dot and a (possibly empty) run of digits.
pub open spec fn decimal_split_at(s: Seq<char>, d: int) -> bool {
    &&& 1 <= d <= s.len()
    &&& all_digits(s.subrange(0, d))
    &&& (d == s.len() || (s[d] == '.' && all_digits(s.subrange(d + 1, s.len() as int))))
}

pub open spec fn is_unsigned_decimal(s: Seq<char>) -> bool {
    exists|d: int| decimal_split_at(s, d)
}

/// `s` without its sign, if it has one.
pub open spec fn unsigned_body(s: Seq<char>) -> Seq<char> {
    if s.len() > 0 && s[0] == '-' {
        s.skip(1)
    } else {
        s
    }
}

/// The decimal texts accepted as one component of a "lat,lon" pair:
/// an optional minus sign, one or more digits, then optionally a dot and
/// any number of digits.
pub open spec fn is_decimal(s: Seq<char>) -> bool {
    is_unsigned_decimal(unsigned_body(s))
}

/// Number of digits at the start of `s`.
pub open spec fn leading_digits(s: Seq<char>) -> int
    decreases s.len(),
{
    if s.len() == 0 {
        0
    } else if !is_digit(s[0]) {
        0
    } else {
        1 + leading_digits(s.skip(1))
    }
}

pub proof fn lemma_leading_digits(s: Seq<char>)
    ensures
        0 <= leading_digits(s) <= s.len(),
        forall|i: int| 0 <= i < leading_digits(s) ==> is_digit(s[i]),
        leading_digits(s) < s.len() ==> !is_digit(s[leading_digits(s)]),
    decreases s.len(),
{
    if s.len() == 0 {
    } else if !is_digit(s[0]) {
    } else {
        lemma_leading_digits(s.skip(1));
        assert forall|i: int| 0 <= i < leading_digits(s) implies is_digit(s[i]) by {
            if i > 0 {
                assert(s.skip(1)[i - 1] == s[i]);
            }
        }
        if leading_digits(s) < s.len() {
            assert(s.skip(1)[leading_digits(s) - 1] == s[leading_digits(s)]);
        }
    }
}

pub proof fn lemma_leading_digits_unique(s: Seq<char>, k: int)
    requires
        0 <= k <= s.len(),
        forall|i: int| 0 <= i < k ==> is_digit(s[i]),
        k < s.len() ==> !is_digit(s[k]),
    ensures
        leading_digits(s) == k,
{
    lemma_leading_digits(s);
    if leading_digits(s) < k {
        assert(is_digit(s[leading_digits(s)]));
    } else if k < leading_digits(s) {
        assert(is_digit(s[k]));
    }
}

/// A decimal split can only sit at the end of the leading digit run, so the
/// split position of an unsigned decimal text is unique.
pub proof fn lemma_split_is_leading_digits(s: Seq<char>, d: int)
    requires
        decimal_split_at(s, d),
    ensures
        d == leading_digits(s),
        1 <= leading_digits(s),
{
    assert forall|i: int| 0 <= i < d implies is_digit(s[i]) by {
        assert(s.subrange(0, d)[i] == s[i]);
    }
    lemma_leading_digits_unique(s, d);
}

/// The integer digits of an unsigned decimal text.
pub open spec fn int_digits(s: Seq<char>) -> Seq<char> {
    s.subrange(0, leading_digits(s))
}

/// The digits after the dot of an unsigned decimal text, if it has a dot.
pub open spec fn frac_digits(s: Seq<char>) -> Seq<char> {
    if leading_digits(s) < s.len() {
        s.subrange(leading_digits(s) + 1, s.len() as int)
    } else {
        Seq::empty()
    }
}

/// Value of a digit run read as a base-10 number.
pub open spec fn digits_val(s: Seq<char>) -> int
    decreases s.len(),
{
    if s.len() == 0 {
        0
    } else {
        10 * digits_val(s.drop_last()) + digit_val(s.last())
    }
}

pub proof fn lemma_digits_val_nonneg(s: Seq<char>)
    requires
        all_digits(s),
    ensures
        digits_val(s) >= 0,
    decreases s.len(),
{
    if s.len() > 0 {
        assert forall|i: int| 0 <= i < s.drop_last().len() implies is_digit(s.drop_last()[i]) by {
            assert(s.drop_last()[i] == s[i]);
        }
        lemma_digits_val_nonneg(s.drop_last());
    }
}

/// Whether the magnitude of the decimal text `s` is strictly above `limit`:
/// its integer part exceeds `limit`, or equals it while some fractional
/// digit is not zero.
pub open spec fn magnitude_exceeds(s: Seq<char>, limit: int) -> bool {
    let u = unsigned_body(s);
    ||| digits_val(int_digits(u)) > limit
    ||| (digits_val(int_digits(u)) == limit && exists|i: int|
        0 <= i < frac_digits(u).len() && frac_digits(u)[i] != '0')
}

/// Every character of a decimal text is a digit, a minus sign or a dot.
pub proof fn lemma_decimal_chars(s: Seq<char>)
    requires
        is_decimal(s),
    ensures
        forall|i: int| 0 <= i < s.len() ==> (is_digit(s[i]) || s[i] == '-' || s[i] == '.'),
{
    let u = unsigned_body(s);
    let d = choose|d: int| decimal_split_at(u, d);
    assert(decimal_split_at(u, d));
    let off: int = if s.len() > 0 && s[0] == '-' {
        1
    } else {
        0
    };
    assert forall|i: int| 0 <= i < s.len() implies (is_digit(s[i]) || s[i] == '-' || s[i]
        == '.') by {
        if i >= off {
            assert(u[i - off] == s[i]);
            let k = i - off;
            if k < d {
                assert(u.subrange(0, d)[k] == u[k]);
            } else if k > d {
                assert(u.subrange(d + 1, u.len() as int)[k - d - 1] == u[k]);
            }
        }
    }
}

/// A text whose first character is not a digit is not an unsigned decimal.
proof fn lemma_not_decimal_first_char(u: Seq<char>)
    requires
        u.len() == 0 || !is_digit(u[0]),
    ensures
        !is_unsigned_decimal(u),
{
    assert forall|d: int| !decimal_split_at(u, d) by {
        if decimal_split_at(u, d) {
            assert(u.subrange(0, d)[0] == u[0]);
        }
    }
}

/// A digit run that stops at something other than a dot or the end rules
/// the text out.
proof fn lemma_not_decimal_bad_stop(u: Seq<char>, m: int)
    requires
        1 <= m < u.len(),
        forall|k: int| 0 <= k < m ==> is_digit(u[k]),
        !is_digit(u[m]),
        u[m] != '.',
    ensures
        !is_unsigned_decimal(u),
{
    assert forall|d: int| !decimal_split_at(u, d) by {
        if decimal_split_at(u, d) {
            if d <= m {
                assert(u[d] == '.');
                if d < m {
                    assert(is_digit(u[d]));
                }
            } else {
                assert(u.subrange(0, d)[m] == u[m]);
            }
        }
    }
}

/// A non-digit after the dot rules the text out.
proof fn lemma_not_decimal_bad_frac(u: Seq<char>, m: int, p: int)
    requires
        1 <= m < u.len(),
        forall|k: int| 0 <= k < m ==> is_digit(u[k]),
        u[m] == '.',
        m < p < u.len(),
        !is_digit(u[p]),
    ensures
        !is_unsigned_decimal(u),
{
    assert forall|d: int| !decimal_split_at(u, d) by {
        if decimal_split_at(u, d) {
            if d < m {
                assert(is_digit(u[d]));
                assert(u[d] == '.');
            } else if d > m {
                assert(u.subrange(0, d)[m] == u[m]);
            } else {
                assert(u.subrange(d + 1, u.len() as int)[p - d - 1] == u[p]);
            }
        }
    }
}

/// Decides the decimal grammar for one latitude/longitude component.
pub fn is_decimal_str(s: &str) -> (r: bool)
    ensures
        r == is_decimal(s@),
{
    let n: usize = s.unicode_len();
    if n == 0 {
        proof {
            lemma_not_decimal_first_char(unsigned_body(s@));
        }
        return false;
    }
    let start: usize = if s.get_char(0) == '-' {
        1
    } else {
        0
    };
    let ghost u = unsigned_body(s@);
    proof {
        assert(u.len() == n - start);
        assert(forall|k: int| 0 <= k < u.len() ==> u[k] == s@[k + start]);
    }
    let mut i: usize = start;
    loop
        invariant
            start <= i <= n,
            n == s@.len(),
            forall|k: int| start <= k < i ==> is_digit(s@[k]),
        ensures
            start <= i <= n,
            forall|k: int| start <= k < i ==> is_digit(s@[k]),
            i == n || !is_digit(s@[i as int]),
        decreases n - i,
    {
        if i >= n {
            break;
        }
        if !digit_char(s.get_char(i)) {
            break;
        }
        i = i + 1;
    }
    if i == start {
        proof {
            if u.len() > 0 {
                assert(u[0] == s@[start as int]);
            }
            lemma_not_decimal_first_char(u);
        }
        return false;
    }
    if i == n {
        proof {
            assert forall|k: int| 0 <= k < i - start implies is_digit(
                #[trigger] u.subrange(0, i - start)[k],
            ) by {
                assert(u.subrange(0, i - start)[k] == u[k]);
                assert(u[k] == s@[k + start]);
            }
            assert(decimal_split_at(u, i - start));
        }
        return true;
    }
    let c = s.get_char(i);
    if c != '.' {
        proof {
            assert forall|k: int| 0 <= k < i - start implies is_digit(u[k]) by {
                assert(u[k] == s@[k + start]);
            }
            assert(u[i - start] == s@[i as int]);
            lemma_not_decimal_bad_stop(u, i - start);
        }
        return false;
    }
    let mut j: usize = i + 1;
    loop
        invariant
            i + 1 <= j <= n,
            n == s@.len(),
            forall|k: int| i < k < j ==> is_digit(s@[k]),
        ensures
            i + 1 <= j <= n,
            forall|k: int| i < k < j ==> is_digit(s@[k]),
            j == n || !is_digit(s@[j as int]),
        decreases n - j,
    {
        if j >= n {
            break;
        }
        if !digit_char(s.get_char(j)) {
            break;
        }
        j = j + 1;
    }
    proof {
        assert forall|k: int| 0 <= k < i - start implies is_digit(u[k]) by {
            assert(u[k] == s@[k + start]);
        }
        assert(u[i - start] == s@[i as int]);
    }
    if j == n {
        proof {
            assert forall|k: int| 0 <= k < i - start implies is_digit(
                #[trigger] u.subrange(0, i - start)[k],
            ) by {
                assert(u.subrange(0, i - start)[k] == u[k]);
            }
            assert forall|k: int| 0 <= k < u.len() - (i - start) - 1 implies is_digit(
                #[trigger] u.subrange(i - start + 1, u.len() as int)[k],
            ) by {
                assert(u.subrange(i - start + 1, u.len() as int)[k] == u[i - start + 1 + k]);
                assert(u[i - start + 1 + k] == s@[i + 1 + k]);
            }
            assert(decimal_split_at(u, i - start));
        }
        true
    } else {
        proof {
            assert(u[j - start] == s@[j as int]);
            lemma_not_decimal_bad_frac(u, i - start, j - start);
        }
        false
    }
}

/// Compares the magnitude of a decimal text against an integer bound,
/// without building a floating-point value.
pub fn decimal_exceeds(s: &str, limit: u64) -> (r: bool)
    requires
        is_decimal(s@),
        limit <= 1000,
    ensures
        r == magnitude_exceeds(s@, limit as int),
{
    let ghost u = unsigned_body(s@);
    proof {
        let d0 = choose|d: int| decimal_split_at(u, d);
        lemma_split_is_leading_digits(u, d0);
        lemma_leading_digits(u);
        if s@.len() == 0 {
            assert(u == s@);
        }
    }
    let n: usize = s.unicode_len();
    let start: usize = if s.get_char(0) == '-' {
        1
    } else {
        0
    };
    proof {
        assert(u.len() == n - start);
        assert(forall|k: int| 0 <= k < u.len() ==> u[k] == s@[k + start]);
    }
    let mut i: usize = start;
    let mut val: u64 = 0;
    proof {
        assert(u.subrange(0, 0) =~= Seq::<char>::empty());
    }
    loop
        invariant
            start <= i <= n,
            n == s@.len(),
            s@.len() >= 1,
            start == (if s@[0] == '-' {
                1int
            } else {
                0int
            }),
            u == unsigned_body(s@),
            u.len() == n - start,
            forall|k: int| 0 <= k < u.len() ==> u[k] == s@[k + start],
            forall|k: int| start <= k < i ==> is_digit(s@[k]),
            limit <= 1000,
            val <= limit + 1,
            all_digits(u.subrange(0, i - start)),
            val == (if digits_val(u.subrange(0, i - start)) > limit {
                limit + 1
            } else {
                digits_val(u.subrange(0, i - start))
            }),
        ensures
            start <= i <= n,
            forall|k: int| start <= k < i ==> is_digit(s@[k]),
            i == n || !is_digit(s@[i as int]),
            val <= limit + 1,
            val == (if digits_val(u.subrange(0, i - start)) > limit {
                limit + 1
            } else {
                digits_val(u.subrange(0, i - start))
            }),
        decreases n - i,
    {
        if i >= n {
            break;
        }
        let c = s.get_char(i);
        if !digit_char(c) {
            break;
        }
        let ghost pref = u.subrange(0, i - start);
        let ghost pref2 = u.subrange(0, i + 1 - start);
        proof {
            assert(pref2.drop_last() =~= pref);
            assert(pref2.last() == u[i - start]);
            assert(u[i - start] == s@[i as int]);
            assert(digits_val(pref2) == 10 * digits_val(pref) + digit_val(c));
            lemma_digits_val_nonneg(pref);
            assert(c as u32 >= 48 && c as u32 <= 57);
            assert forall|k: int| 0 <= k < pref2.len() implies is_digit(pref2[k]) by {
                assert(pref2[k] == u[k]);
            }
        }
        let d: u64 = (c as u32 - 48) as u64;
        let nv: u64 = val * 10 + d;
        if nv > limit {
            val = limit + 1;
            proof {
                if digits_val(pref) > limit {
                    assert(digits_val(pref) >= limit + 1);
                    assert(digits_val(pref2) >= 10 * (limit + 1));
                } else {
                    assert(nv == digits_val(pref2));
                }
            }
        } else {
            val = nv;
        }
        i = i + 1;
    }
    proof {
        assert forall|k: int| 0 <= k < i - start implies is_digit(u[k]) by {
            assert(u[k] == s@[k + start]);
        }
        if (i as int) < n {
            assert(u[i - start] == s@[i as int]);
        }
        lemma_leading_digits_unique(u, i - start);
        assert(int_digits(u) == u.subrange(0, i - start));
    }
    if val > limit {
        return true;
    }
    if val < limit {
        return false;
    }
    if i == n {
        proof {
            assert(frac_digits(u) =~= Seq::<char>::empty());
        }
        return false;
    }
    let mut j: usize = i + 1;
    loop
        invariant
            i + 1 <= j <= n,
            n == s@.len(),
            start <= i < n,
            u == unsigned_body(s@),
            u.len() == n - start,
            forall|k: int| 0 <= k < u.len() ==> u[k] == s@[k + start],
            leading_digits(u) == i - start,
            forall|k: int| i < k < j ==> s@[k] == '0',
        ensures
            j == n ==> forall|k: int| i < k < n ==> s@[k] == '0',
            j == n || (i < j <= n && s@[j as int] != '0'),
            forall|k: int| i < k < j ==> s@[k] == '0',
            i + 1 <= j <= n,
        decreases n - j,
    {
        if j >= n {
            break;
        }
        let c = s.get_char(j);
        if c != '0' {
            break;
        }
        j = j + 1;
    }
    if j < n {
        proof {
            assert(frac_digits(u)[j - 1 - i] == u[j - start]);
            assert(u[j - start] == s@[j as int]);
        }
        true
    } else {
        proof {
            assert forall|p: int| 0 <= p < frac_digits(u).len() implies frac_digits(u)[p]
                == '0' by {
                assert(frac_digits(u)[p] == u[leading_digits(u) + 1 + p]);
                assert(u[i - start + 1 + p] == s@[i + 1 + p]);
            }
        }
        false
    }
}

} // verus!
