//! Verified text helpers: equality, substring search (also case-folded for
//! ASCII), and decimal rendering of integers.

use vstd::prelude::*;
use vstd::string::StringExecFns;

verus! {

/// Character-wise string equality.
pub fn str_eq(a: &str, b: &str) -> (r: bool)
    ensures
        r == (a@ == b@),
{
    let n = a.unicode_len();
    let m = b.unicode_len();
    if n != m {
        proof {
            assert(a@ != b@);
        }
        return false;
    }
    let mut i: usize = 0;
    while i < n
        invariant
            i <= n,
            n == a@.len(),
            n == b@.len(),
            forall|k: int| 0 <= k < i ==> a@[k] == b@[k],
        decreases n - i,
    {
        if a.get_char(i) != b.get_char(i) {
            return false;
        }
        i = i + 1;
    }
    proof {
        assert(a@ =~= b@);
    }
    true
}

/// Whether `pat` occurs contiguously in `s`.
pub open spec fn contains_sub(s: Seq<char>, pat: Seq<char>) -> bool {
    exists|k: int| 0 <= k <= s.len() - pat.len() && #[trigger] s.subrange(k, k + pat.len()) == pat
}

/// Substring search, the verified counterpart of `str::contains`.
pub fn contains_str(s: &str, pat: &str) -> (r: bool)
    ensures
        r == contains_sub(s@, pat@),
{
    let n = s.unicode_len();
    let m = pat.unicode_len();
    if m > n {
        return false;
    }
    if m == 0 {
        proof {
            assert(contains_sub(s@, pat@)) by {
                assert(s@.subrange(0, 0 + pat@.len() as int) =~= pat@);
            }
        }
        return true;
    }
    let mut k: usize = 0;
    while k <= n - m
        invariant
            1 <= m <= n,
            k <= n - m + 1,
            n == s@.len(),
            m == pat@.len(),
            forall|kk: int| 0 <= kk < k ==> #[trigger] s@.subrange(kk, kk + pat@.len()) != pat@,
        decreases n - k,
    {
        let mut j: usize = 0;
        let mut matched = true;
        while j < m
            invariant
                j <= m,
                k + m <= n,
                n == s@.len(),
                m == pat@.len(),
                matched ==> forall|q: int| 0 <= q < j ==> s@[k + q] == pat@[q],
                !matched ==> s@.subrange(k as int, k + pat@.len()) != pat@,
            decreases m - j,
        {
            if s.get_char(k + j) != pat.get_char(j) {
                proof {
                    assert(s@.subrange(k as int, k + pat@.len())[j as int] != pat@[j as int]);
                }
                matched = false;
                j = m;
            } else {
                j = j + 1;
            }
        }
        if matched {
            proof {
                assert(s@.subrange(k as int, k + pat@.len()) =~= pat@);
            }
            return true;
        }
        k = k + 1;
    }
    proof {
        assert(!contains_sub(s@, pat@)) by {
            if contains_sub(s@, pat@) {
                let kk = choose|kk: int|
                    0 <= kk <= s@.len() - pat@.len() && #[trigger] s@.subrange(kk, kk + pat@.len())
                        == pat@;
                assert(s@.subrange(kk, kk + pat@.len()) != pat@);
            }
        }
    }
    false
}

/// ASCII lower-casing of one character; other characters are unchanged.
pub open spec fn lower_char(c: char) -> char {
    if 65 <= c as u32 <= 90 {
        (((c as u32) + 32) as u8) as char
    } else {
        c
    }
}

/// The string lower-cased character by character (ASCII range only).
pub open spec fn lower_seq(s: Seq<char>) -> Seq<char> {
    s.map_values(|c: char| lower_char(c))
}

fn lower_char_exec(c: char) -> (r: char)
    ensures
        r == lower_char(c),
{
    let u = c as u32;
    if 65 <= u && u <= 90 {
        ((u + 32) as u8) as char
    } else {
        c
    }
}

/// Substring search on the ASCII-lower-cased text: whether the lower-cased
/// pattern occurs in the lower-cased string.
pub fn contains_str_lower(s: &str, pat: &str) -> (r: bool)
    ensures
        r == contains_sub(lower_seq(s@), lower_seq(pat@)),
    {
    let n = s.unicode_len();
    let m = pat.unicode_len();
    let ghost ls = lower_seq(s@);
    let ghost lp = lower_seq(pat@);
    proof {
        assert(ls.len() == s@.len());
        assert(lp.len() == pat@.len());
    }
    if m > n {
        return false;
    }
    if m == 0 {
        proof {
            assert(contains_sub(ls, lp)) by {
                assert(ls.subrange(0, 0 + lp.len() as int) =~= lp);
            }
        }
        return true;
    }
    let mut k: usize = 0;
    while k <= n - m
        invariant
            1 <= m <= n,
            k <= n - m + 1,
            n == s@.len(),
            m == pat@.len(),
            ls == lower_seq(s@),
            lp == lower_seq(pat@),
            ls.len() == n,
            lp.len() == m,
            forall|kk: int| 0 <= kk < k ==> #[trigger] ls.subrange(kk, kk + lp.len()) != lp,
        decreases n - k,
    {
        let mut j: usize = 0;
        let mut matched = true;
        while j < m
            invariant
                j <= m,
                k + m <= n,
                n == s@.len(),
                m == pat@.len(),
                ls == lower_seq(s@),
                lp == lower_seq(pat@),
                ls.len() == n,
                lp.len() == m,
                matched ==> forall|q: int| 0 <= q < j ==> ls[k + q] == lp[q],
                !matched ==> ls.subrange(k as int, k + lp.len()) != lp,
            decreases m - j,
        {
            let cs = lower_char_exec(s.get_char(k + j));
            let cp = lower_char_exec(pat.get_char(j));
            proof {
                assert(ls[k + j] == lower_char(s@[k + j]));
                assert(lp[j as int] == lower_char(pat@[j as int]));
            }
            if cs != cp {
                proof {
                    assert(ls.subrange(k as int, k + lp.len())[j as int] != lp[j as int]);
                }
                matched = false;
                j = m;
            } else {
                j = j + 1;
            }
        }
        if matched {
            proof {
                assert(ls.subrange(k as int, k + lp.len()) =~= lp);
            }
            return true;
        }
        k = k + 1;
    }
    proof {
        assert(!contains_sub(ls, lp)) by {
            if contains_sub(ls, lp) {
                let kk = choose|kk: int|
                    0 <= kk <= ls.len() - lp.len() && #[trigger] ls.subrange(kk, kk + lp.len())
                        == lp;
                assert(ls.subrange(kk, kk + lp.len()) != lp);
            }
        }
    }
    false
}

/// The decimal digit character of `d`.
pub open spec fn digit_char(d: int) -> char
    recommends
        0 <= d <= 9,
{
    ((48 + d) as u8) as char
}

/// The decimal digits of `n`, most significant first.
pub open spec fn dec_digits(n: int) -> Seq<char>
    recommends
        n >= 0,
    decreases n,
{
    if n < 10 {
        seq![digit_char(n)]
    } else {
        dec_digits(n / 10) + seq![digit_char(n % 10)]
    }
}

fn digit_str(d: u64) -> (r: &'static str)
    requires
        d <= 9,
    ensures
        r@ == seq![digit_char(d as int)],
{
    let r = match d {
        0 => "0",
        1 => "1",
        2 => "2",
        3 => "3",
        4 => "4",
        5 => "5",
        6 => "6",
        7 => "7",
        8 => "8",
        _ => "9",
    };
    proof {
        reveal_strlit("0");
        reveal_strlit("1");
        reveal_strlit("2");
        reveal_strlit("3");
        reveal_strlit("4");
        reveal_strlit("5");
        reveal_strlit("6");
        reveal_strlit("7");
        reveal_strlit("8");
        reveal_strlit("9");
        assert(r@ =~= seq![digit_char(d as int)]);
    }
    r
}

/// Decimal rendering of an unsigned integer.
pub fn u64_to_string(x: u64) -> (r: String)
    ensures
        r@ == dec_digits(x as int),
    decreases x,
{
    if x < 10 {
        digit_str(x).to_owned()
    } else {
        proof {
            vstd::arithmetic::div_mod::lemma_div_pos_is_pos(x as int, 10);
            vstd::arithmetic::div_mod::lemma_div_is_strictly_smaller(x as int, 10);
            vstd::arithmetic::div_mod::lemma_mod_division_less_than_divisor(x as int, 10);
        }
        let mut s = u64_to_string(x / 10);
        s.append(digit_str(x % 10));
        s
    }
}

/// The exactly-`width` low decimal digits of `n`, zero padded.
pub open spec fn fixed_digits(n: int, width: nat) -> Seq<char>
    decreases width,
{
    if width == 0 {
        Seq::empty()
    } else {
        fixed_digits(n / 10, (width - 1) as nat) + seq![digit_char(n % 10)]
    }
}

/// The low `width` digits of `n`, zero padded to exactly `width` places.
pub fn fixed_width_string(n: u64, width: u32) -> (r: String)
    ensures
        r@ == fixed_digits(n as int, width as nat),
    decreases width,
{
    if width == 0 {
        String::new()
    } else {
        proof {
            vstd::arithmetic::div_mod::lemma_div_pos_is_pos(n as int, 10);
            vstd::arithmetic::div_mod::lemma_mod_division_less_than_divisor(n as int, 10);
        }
        let mut s = fixed_width_string(n / 10, width - 1);
        s.append(digit_str(n % 10));
        s
    }
}

/// The decimal rendering of a signed integer: a minus sign and the digits
/// of the magnitude.
pub open spec fn dec_int(x: int) -> Seq<char> {
    if x >= 0 {
        dec_digits(x)
    } else {
        seq!['-'] + dec_digits(-x)
    }
}

/// Decimal rendering of a signed integer.
pub fn i64_to_string(x: i64) -> (r: String)
    ensures
        r@ == dec_int(x as int),
{
    if x >= 0 {
        u64_to_string(x as u64)
    } else {
        let mag: u64 = (-(x as i128)) as u64;
        let mut s = "-".to_owned();
        s.append(u64_to_string(mag).as_str());
        proof {
            reveal_strlit("-");
            assert(s@ =~= dec_int(x as int));
        }
        s
    }
}

} // verus!
