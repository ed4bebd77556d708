//! Character-level text helpers: whitespace classification, blank-line
//! detection and trimming, with exact specifications over `Seq<char>`.

use vstd::prelude::*;

verus! {

/// A whitespace character for the purposes of trimming and blank-line
/// detection: space, tab, carriage return or line feed.
pub open spec fn is_ws_char(c: char) -> bool {
    c == ' ' || c == '\t' || c == '\r' || c == '\n'
}

pub fn ws_char(c: char) -> (r: bool)
    ensures
        r == is_ws_char(c),
{
    c == ' ' || c == '\t' || c == '\r' || c == '\n'
}

/// Number of whitespace characters at the start of `s`.
pub open spec fn leading_ws(s: Seq<char>) -> int
    decreases s.len(),
{
    if s.len() == 0 {
        0
    } else if !is_ws_char(s[0]) {
        0
    } else {
        1 + leading_ws(s.skip(1))
    }
}

/// Number of whitespace characters at the end of `s`.
pub open spec fn trailing_ws(s: Seq<char>) -> int
    decreases s.len(),
{
    if s.len() == 0 {
        0
    } else if !is_ws_char(s.last()) {
        0
    } else {
        1 + trailing_ws(s.drop_last())
    }
}

/// A line is blank when it holds nothing but whitespace.
pub open spec fn is_blank(s: Seq<char>) -> bool {
    leading_ws(s) == s.len()
}

/// `s` with leading and trailing whitespace removed.
pub open spec fn trimmed(s: Seq<char>) -> Seq<char> {
    if is_blank(s) {
        Seq::empty()
    } else {
        s.subrange(leading_ws(s), s.len() - trailing_ws(s))
    }
}

/// The leading-whitespace count is in range, everything before it is
/// whitespace, and the character at it (if any) is not.
pub proof fn lemma_leading_ws(s: Seq<char>)
    ensures
        0 <= leading_ws(s) <= s.len(),
        forall|i: int| 0 <= i < leading_ws(s) ==> is_ws_char(s[i]),
        leading_ws(s) < s.len() ==> !is_ws_char(s[leading_ws(s)]),
    decreases s.len(),
{
    if s.len() == 0 {
    } else if !is_ws_char(s[0]) {
    } else {
        lemma_leading_ws(s.skip(1));
        assert forall|i: int| 0 <= i < leading_ws(s) implies is_ws_char(s[i]) by {
            if i > 0 {
                assert(s.skip(1)[i - 1] == s[i]);
            }
        }
        if leading_ws(s) < s.len() {
            assert(s.skip(1)[leading_ws(s) - 1] == s[leading_ws(s)]);
        }
    }
}

/// Any index that splits `s` into a whitespace prefix followed by a
/// non-whitespace character (or the end) is the leading-whitespace count.
pub proof fn lemma_leading_ws_unique(s: Seq<char>, k: int)
    requires
        0 <= k <= s.len(),
        forall|i: int| 0 <= i < k ==> is_ws_char(s[i]),
        k < s.len() ==> !is_ws_char(s[k]),
    ensures
        leading_ws(s) == k,
{
    lemma_leading_ws(s);
    if leading_ws(s) < k {
        assert(is_ws_char(s[leading_ws(s)]));
    } else if k < leading_ws(s) {
        assert(is_ws_char(s[k]));
    }
}

/// The trailing-whitespace count is in range, everything at or after
/// `s.len() - trailing_ws(s)` is whitespace, and the character just before
/// (if any) is not.
pub proof fn lemma_trailing_ws(s: Seq<char>)
    ensures
        0 <= trailing_ws(s) <= s.len(),
        forall|i: int| s.len() - trailing_ws(s) <= i < s.len() ==> is_ws_char(s[i]),
        trailing_ws(s) < s.len() ==> !is_ws_char(s[s.len() - trailing_ws(s) - 1]),
    decreases s.len(),
{
    if s.len() == 0 {
    } else if !is_ws_char(s.last()) {
    } else {
        lemma_trailing_ws(s.drop_last());
        assert forall|i: int| s.len() - trailing_ws(s) <= i < s.len() implies is_ws_char(s[i]) by {
            if i < s.len() - 1 {
                assert(s.drop_last()[i] == s[i]);
            }
        }
        if trailing_ws(s) < s.len() {
            assert(s.drop_last()[s.len() - trailing_ws(s) - 1] == s[s.len() - trailing_ws(s) - 1]);
        }
    }
}

/// Any split of `s` into a non-whitespace character (or the start) followed
/// by a whitespace suffix of length `k` fixes the trailing-whitespace count.
pub proof fn lemma_trailing_ws_unique(s: Seq<char>, k: int)
    requires
        0 <= k <= s.len(),
        forall|i: int| s.len() - k <= i < s.len() ==> is_ws_char(s[i]),
        k < s.len() ==> !is_ws_char(s[s.len() - k - 1]),
    ensures
        trailing_ws(s) == k,
{
    lemma_trailing_ws(s);
    if trailing_ws(s) < k {
        assert(is_ws_char(s[s.len() - trailing_ws(s) - 1]));
    } else if k < trailing_ws(s) {
        assert(is_ws_char(s[s.len() - k - 1]));
    }
}

/// On a non-blank line the trimmed region is a well-formed, non-empty range.
pub proof fn lemma_trim_range(s: Seq<char>)
    requires
        !is_blank(s),
    ensures
        0 <= leading_ws(s) < s.len() - trailing_ws(s) <= s.len(),
{
    lemma_leading_ws(s);
    lemma_trailing_ws(s);
    if s.len() - trailing_ws(s) <= leading_ws(s) {
        assert(is_ws_char(s[leading_ws(s)]));
    }
}

/// `s` with leading and trailing whitespace removed.
pub fn trim_str(s: &str) -> (t: &str)
    ensures
        t@ == trimmed(s@),
{
    let n: usize = s.unicode_len();
    let mut i: usize = 0;
    loop
        invariant
            0 <= i <= n,
            n == s@.len(),
            forall|k: int| 0 <= k < i ==> is_ws_char(s@[k]),
        ensures
            0 <= i <= n,
            forall|k: int| 0 <= k < i ==> is_ws_char(s@[k]),
            i == n || !is_ws_char(s@[i as int]),
        decreases n - i,
    {
        if i >= n {
            break;
        }
        let c = s.get_char(i);
        if !ws_char(c) {
            break;
        }
        i = i + 1;
    }
    proof {
        lemma_leading_ws_unique(s@, i as int);
    }
    let mut j: usize = n;
    loop
        invariant
            i <= j <= n,
            n == s@.len(),
            i < n ==> !is_ws_char(s@[i as int]),
            forall|k: int| j <= k < n ==> is_ws_char(s@[k]),
        ensures
            i <= j <= n,
            forall|k: int| j <= k < n ==> is_ws_char(s@[k]),
            j == i || !is_ws_char(s@[j - 1]),
        decreases j,
    {
        if j <= i {
            break;
        }
        let c = s.get_char(j - 1);
        if !ws_char(c) {
            break;
        }
        j = j - 1;
    }
    if i >= n {
        proof {
            assert(is_blank(s@));
        }
        let t = s.substring_char(n, n);
        proof {
            assert(t@ =~= trimmed(s@));
        }
        t
    } else {
        proof {
            assert(!is_ws_char(s@[i as int]));
            if j == i {
                assert(is_ws_char(s@[i as int]));
            }
            lemma_trailing_ws_unique(s@, n - j);
            assert(!is_blank(s@));
        }
        s.substring_char(i, j)
    }
}

/// True exactly on blank lines: those the stream skips.
pub fn is_blank_line(s: &str) -> (r: bool)
    ensures
        r == is_blank(s@),
{
    let t = trim_str(s);
    proof {
        if !is_blank(s@) {
            lemma_trim_range(s@);
        }
    }
    t.is_empty()
}

} // verus!
