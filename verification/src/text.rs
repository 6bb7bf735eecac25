//! Text of messages: joining, decimal numbers, searching.
use vstd::prelude::*;
use vstd::string::StrSliceExecFns;
use vstd::string::StringExecFns;

verus! {

/// `a` followed by `b`.
pub fn join(a: &str, b: &str) -> (r: String)
    ensures
        r@ == a@ + b@,
{
    a.to_owned().concat(b)
}

/// The digit `d` of a decimal number.
pub open spec fn digit(d: int) -> Seq<char> {
    if d == 0 {
        "0"@
    } else if d == 1 {
        "1"@
    } else if d == 2 {
        "2"@
    } else if d == 3 {
        "3"@
    } else if d == 4 {
        "4"@
    } else if d == 5 {
        "5"@
    } else if d == 6 {
        "6"@
    } else if d == 7 {
        "7"@
    } else if d == 8 {
        "8"@
    } else {
        "9"@
    }
}

/// `n` written in decimal.
pub open spec fn decimal_of(n: nat) -> Seq<char>
    decreases n,
{
    if n < 10 {
        digit(n as int)
    } else {
        decimal_of(n / 10) + digit(n as int % 10)
    }
}

pub(crate) fn digit_text(d: usize) -> (r: &'static str)
    requires
        d < 10,
    ensures
        r@ == digit(d as int),
{
    if d == 0 {
        "0"
    } else if d == 1 {
        "1"
    } else if d == 2 {
        "2"
    } else if d == 3 {
        "3"
    } else if d == 4 {
        "4"
    } else if d == 5 {
        "5"
    } else if d == 6 {
        "6"
    } else if d == 7 {
        "7"
    } else if d == 8 {
        "8"
    } else {
        "9"
    }
}

pub fn decimal(n: usize) -> (r: String)
    ensures
        r@ == decimal_of(n as nat),
    decreases n,
{
    if n < 10 {
        digit_text(n).to_owned()
    } else {
        decimal(n / 10).concat(digit_text(n % 10))
    }
}

/// `needle` occurs in `hay`.
pub open spec fn occurs_in(needle: Seq<char>, hay: Seq<char>) -> bool {
    exists|i: int| occurs_at(needle, hay, i)
}

pub open spec fn occurs_at(needle: Seq<char>, hay: Seq<char>, i: int) -> bool {
    0 <= i <= hay.len() - needle.len() && hay.subrange(i, i + needle.len()) == needle
}

/// Whether `needle` occurs in `hay`.
pub fn contains(hay: &str, needle: &str) -> (r: bool)
    ensures
        r == occurs_in(needle@, hay@),
{
    let n: usize = hay.unicode_len();
    let m: usize = needle.unicode_len();
    if m > n {
        return false;
    }
    let mut i: usize = 0;
    while i <= n - m
        invariant
            n == hay@.len(),
            m == needle@.len(),
            m <= n,
            i <= n - m + 1,
            forall|k: int| 0 <= k < i ==> !occurs_at(needle@, hay@, k),
        decreases n - m + 1 - i,
    {
        let mut j: usize = 0;
        while j < m && hay.get_char(i + j) == needle.get_char(j)
            invariant
                n == hay@.len(),
                m == needle@.len(),
                i <= n - m,
                m <= n,
                j <= m,
                forall|k: int| 0 <= k < j ==> hay@[i + k] == needle@[k],
            ensures
                j <= m,
                forall|k: int| 0 <= k < j ==> hay@[i + k] == needle@[k],
                j < m ==> hay@[i + j] != needle@[j as int],
            decreases m - j,
        {
            j = j + 1;
        }
        if j == m {
            assert(hay@.subrange(i as int, i + m) =~= needle@);
            assert(occurs_at(needle@, hay@, i as int));
            return true;
        }
        assert(!occurs_at(needle@, hay@, i as int)) by {
            assert(hay@.subrange(i as int, i + m)[j as int] == hay@[i + j]);
        }
        i = i + 1;
    }
    false
}

} // verus!
