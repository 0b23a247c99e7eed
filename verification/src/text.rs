//! Character-level scanning over text viewed as a sequence of characters:
//! whitespace runs, digit runs, and literal matches. These are the building
//! blocks of the wire-format parser.

use vstd::prelude::*;
use crate::decimal::{digit_val, digits_value, is_digit};

verus! {

/// A JSON insignificant-whitespace character.
pub open spec fn is_ws(c: char) -> bool {
    c == ' ' || c == '\t' || c == '\n' || c == '\r'
}

/// Index of the first character at or after `i` that is not whitespace
/// (or the end of the text).
pub open spec fn skip_ws(s: Seq<char>, i: int) -> int
    decreases s.len() - i,
{
    if 0 <= i && i < s.len() && is_ws(s[i]) {
        skip_ws(s, i + 1)
    } else {
        i
    }
}

/// Index of the first character at or after `i` that is not a decimal digit
/// (or the end of the text).
pub open spec fn digits_end(s: Seq<char>, i: int) -> int
    decreases s.len() - i,
{
    if 0 <= i && i < s.len() && is_digit(s[i]) {
        digits_end(s, i + 1)
    } else {
        i
    }
}

/// The literal `lit` occurs in `s` starting exactly at index `i`.
pub open spec fn lit_at(s: Seq<char>, i: int, lit: Seq<char>) -> bool {
    0 <= i && i + lit.len() <= s.len() && s.subrange(i, i + lit.len()) == lit
}

/// A maximal digit run of known extent pins down `digits_end`.
pub proof fn lemma_digits_end_run(s: Seq<char>, i: int, e: int)
    requires
        0 <= i <= e <= s.len(),
        forall|k: int| i <= k < e ==> is_digit(s[k]),
        e == s.len() || !is_digit(s[e]),
    ensures
        digits_end(s, i) == e,
    decreases e - i,
{
    if i < e {
        lemma_digits_end_run(s, i + 1, e);
    }
}

/// A whitespace run of known extent pins down `skip_ws`.
pub proof fn lemma_skip_ws_run(s: Seq<char>, i: int, e: int)
    requires
        0 <= i <= e <= s.len(),
        forall|k: int| i <= k < e ==> is_ws(s[k]),
        e == s.len() || !is_ws(s[e]),
    ensures
        skip_ws(s, i) == e,
    decreases e - i,
{
    if i < e {
        lemma_skip_ws_run(s, i + 1, e);
    }
}

/// Advances past whitespace, reporting where `skip_ws` lands.
pub fn skip_ws_exec(s: &str, n: usize, i: usize) -> (j: usize)
    requires
        n == s@.len(),
        i <= n,
    ensures
        j as int == skip_ws(s@, i as int),
        i <= j <= n,
{
    let mut j: usize = i;
    loop
        invariant
            n == s@.len(),
            i <= j <= n,
            skip_ws(s@, i as int) == skip_ws(s@, j as int),
        ensures
            i <= j <= n,
            j as int == skip_ws(s@, i as int),
        decreases n - j,
    {
        if j < n {
            let c = s.get_char(j);
            if c == ' ' || c == '\t' || c == '\n' || c == '\r' {
                j += 1;
            } else {
                proof {
                    assert(!is_ws(s@[j as int]));
                    assert(skip_ws(s@, j as int) == j as int);
                }
                break ;
            }
        } else {
            proof {
                assert(skip_ws(s@, j as int) == j as int);
            }
            break ;
        }
    }
    j
}

/// Tests whether `lit` occurs in `s` starting exactly at `i`.
pub fn lit_at_exec(s: &str, n: usize, i: usize, lit: &str) -> (b: bool)
    requires
        n == s@.len(),
        i <= n,
    ensures
        b == lit_at(s@, i as int, lit@),
{
    let m = lit.unicode_len();
    if m > n - i {
        proof {
            assert(!lit_at(s@, i as int, lit@));
        }
        return false;
    }
    let mut k: usize = 0;
    loop
        invariant
            n == s@.len(),
            m == lit@.len(),
            i + m <= n,
            k <= m,
            forall|t: int| 0 <= t < k ==> s@[i + t] == lit@[t],
        ensures
            k == m,
            forall|t: int| 0 <= t < m ==> s@[i + t] == lit@[t],
        decreases m - k,
    {
        if k < m {
            if s.get_char(i + k) != lit.get_char(k) {
                proof {
                    if lit_at(s@, i as int, lit@) {
                        assert(s@.subrange(i as int, i + lit@.len())[k as int] == s@[i + k]);
                    }
                }
                return false;
            }
            k += 1;
        } else {
            break ;
        }
    }
    proof {
        assert(s@.subrange(i as int, i + lit@.len()) =~= lit@);
    }
    true
}

/// Scans the digit run starting at `i` and accumulates its value, reporting
/// an overflow instead of a value when the run denotes more than `u128::MAX`.
pub fn scan_digits_u128(s: &str, n: usize, i: usize) -> (r: (usize, Option<u128>))
    requires
        n == s@.len(),
        i <= n,
    ensures
        r.0 as int == digits_end(s@, i as int),
        i <= r.0 <= n,
        match r.1 {
            Some(v) => v as nat == digits_value(s@.subrange(i as int, r.0 as int)),
            None => digits_value(s@.subrange(i as int, r.0 as int)) > u128::MAX,
        },
{
    let mut j: usize = i;
    let mut acc: Option<u128> = Some(0);
    proof {
        assert(s@.subrange(i as int, i as int) =~= Seq::<char>::empty());
    }
    loop
        invariant
            n == s@.len(),
            i <= j <= n,
            digits_end(s@, i as int) == digits_end(s@, j as int),
            match acc {
                Some(a) => a as nat == digits_value(s@.subrange(i as int, j as int)),
                None => digits_value(s@.subrange(i as int, j as int)) > u128::MAX,
            },
        ensures
            i <= j <= n,
            j as int == digits_end(s@, i as int),
            match acc {
                Some(a) => a as nat == digits_value(s@.subrange(i as int, j as int)),
                None => digits_value(s@.subrange(i as int, j as int)) > u128::MAX,
            },
        decreases n - j,
    {
        if j < n {
            let c = s.get_char(j);
            if '0' <= c && c <= '9' {
                let d: u128 = (c as u32 - 48) as u128;
                proof {
                    assert(d as nat == digit_val(c));
                    let pre = s@.subrange(i as int, j as int);
                    let ext = s@.subrange(i as int, (j + 1) as int);
                    assert(ext.drop_last() =~= pre);
                    assert(ext.last() == s@[j as int]);
                    assert(digits_value(ext) == digits_value(pre) * 10 + digit_val(c));
                }
                acc = match acc {
                    Some(a) => {
                        match a.checked_mul(10) {
                            Some(m) => m.checked_add(d),
                            None => None,
                        }
                    },
                    None => None,
                };
                j += 1;
            } else {
                proof {
                    assert(!is_digit(s@[j as int]));
                    assert(digits_end(s@, j as int) == j as int);
                }
                break ;
            }
        } else {
            proof {
                assert(digits_end(s@, j as int) == j as int);
            }
            break ;
        }
    }
    (j, acc)
}

} // verus!
