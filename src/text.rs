use vstd::prelude::*;
use crate::number::{Num, num_of};

verus! {

pub open spec fn digit_char(d: nat) -> char {
    if d == 0 { '0' }
    else if d == 1 { '1' }
    else if d == 2 { '2' }
    else if d == 3 { '3' }
    else if d == 4 { '4' }
    else if d == 5 { '5' }
    else if d == 6 { '6' }
    else if d == 7 { '7' }
    else if d == 8 { '8' }
    else { '9' }
}

/// The decimal digits of `n`, most significant first, without leading zeros.
pub open spec fn decimal(n: nat) -> Seq<char>
    decreases n,
{
    if n < 10 {
        seq![digit_char(n)]
    } else {
        decimal(n / 10).push(digit_char(n % 10))
    }
}

/// The text of a number: its decimal digits with a leading `-` if negative, or `NaN`.
pub open spec fn num_text(n: Num) -> Seq<char> {
    match n {
        Num::NaN => seq!['N', 'a', 'N'],
        Num::Int(i) => if i < 0 {
            seq!['-'] + decimal((-i) as nat)
        } else {
            decimal(i as nat)
        },
    }
}

fn digit_str(d: u64) -> (r: &'static str)
    requires
        d < 10,
    ensures
        r@ == seq![digit_char(d as nat)],
{
    proof {
        reveal_strlit("0");
        reveal_strlit("1");
        reveal_strlit("2");
        reveal_strlit("3");
        reveal_strlit("4");
        reveal_strlit("5");
        reveal_strlit("6");
        reveal_strlit("7");
        reveal_strlit("8");
        reveal_strlit("9");
    }
    if d == 0 { "0" }
    else if d == 1 { "1" }
    else if d == 2 { "2" }
    else if d == 3 { "3" }
    else if d == 4 { "4" }
    else if d == 5 { "5" }
    else if d == 6 { "6" }
    else if d == 7 { "7" }
    else if d == 8 { "8" }
    else { "9" }
}

/// The decimal text of an unsigned integer.
pub fn decimal_string(n: u64) -> (r: String)
    ensures
        r@ == decimal(n as nat),
    decreases n,
{
    if n < 10 {
        String::from_str(digit_str(n))
    } else {
        let mut s = decimal_string(n / 10);
        s.append(digit_str(n % 10));
        s
    }
}

/// The text of a number, as string conversion shows it.
pub fn num_to_string(n: &Num) -> (r: String)
    ensures
        r@ == num_text(*n),
{
    match n {
        Num::NaN => {
            proof { reveal_strlit("NaN"); }
            String::from_str("NaN")
        },
        Num::Int(i) => {
            if *i < 0 {
                let m = (-(*i as i128)) as u64;
                let digits = decimal_string(m);
                proof { reveal_strlit("-"); }
                let s = String::from_str("-");
                s.concat(digits.as_str())
            } else {
                decimal_string(*i as u64)
            }
        },
    }
}

pub open spec fn is_digit(c: char) -> bool {
    '0' <= c <= '9'
}

pub open spec fn all_digits(s: Seq<char>) -> bool {
    forall|i: int| 0 <= i < s.len() ==> is_digit(#[trigger] s[i])
}

/// The integer that a run of decimal digits spells.
pub open spec fn digits_value(s: Seq<char>) -> int
    decreases s.len(),
{
    if s.len() == 0 {
        0
    } else {
        10 * digits_value(s.drop_last()) + (s.last() as int - '0' as int)
    }
}

/// The number that a string spells: the empty string is zero, a run of
/// decimal digits (with an optional leading `-`) is that integer, and any
/// other text is `NaN`.
pub open spec fn str_num(s: Seq<char>) -> Num {
    if s.len() == 0 {
        Num::Int(0)
    } else if all_digits(s) {
        num_of(digits_value(s))
    } else if s[0] == '-' && s.len() > 1 && all_digits(s.drop_first()) {
        num_of(-digits_value(s.drop_first()))
    } else {
        Num::NaN
    }
}

proof fn lemma_digits_value_nonneg(s: Seq<char>)
    requires
        all_digits(s),
    ensures
        digits_value(s) >= 0,
    decreases s.len(),
{
    if s.len() > 0 {
        assert(all_digits(s.drop_last())) by {
            assert forall|i: int| 0 <= i < s.drop_last().len() implies is_digit(#[trigger] s.drop_last()[i]) by {
                assert(s.drop_last()[i] == s[i]);
            }
        }
        lemma_digits_value_nonneg(s.drop_last());
        assert(is_digit(s[s.len() - 1]));
    }
}

const DIGITS_BOUND: i128 = 0x8000_0000_0000_0000;

/// Reads `s[from..]` as decimal digits: `Err` if some character is not a
/// digit, `Ok(None)` if the value is above 2^63, else `Ok(Some(value))`.
fn read_digits(s: &str, from: usize) -> (r: Result<Option<i128>, ()>)
    requires
        from <= s@.len(),
    ensures
        r is Err <==> !all_digits(s@.subrange(from as int, s@.len() as int)),
        r matches Ok(Some(v)) ==> v == digits_value(s@.subrange(from as int, s@.len() as int)) && 0 <= v <= DIGITS_BOUND,
        r matches Ok(None) ==> digits_value(s@.subrange(from as int, s@.len() as int)) > DIGITS_BOUND,
{
    let n = s.unicode_len();
    let mut v: i128 = 0;
    let mut over = false;
    let mut i: usize = from;
    while i < n
        invariant
            n == s@.len(),
            from <= i <= n,
            all_digits(s@.subrange(from as int, i as int)),
            !over ==> v == digits_value(s@.subrange(from as int, i as int)) && 0 <= v <= DIGITS_BOUND,
            over ==> digits_value(s@.subrange(from as int, i as int)) > DIGITS_BOUND,
        decreases n - i,
    {
        let c = s.get_char(i);
        let ghost pre = s@.subrange(from as int, i as int);
        let ghost next = s@.subrange(from as int, i + 1);
        proof {
            assert(next.drop_last() =~= pre);
            assert(next.last() == c);
        }
        if !('0' <= c && c <= '9') {
            proof {
                assert(!is_digit(s@.subrange(from as int, n as int)[i - from]));
            }
            return Err(());
        }
        let d = (c as u32 - '0' as u32) as i128;
        proof {
            assert forall|k: int| 0 <= k < next.len() implies is_digit(#[trigger] next[k]) by {
                if k < pre.len() {
                    assert(next[k] == pre[k]);
                }
            }
            lemma_digits_value_nonneg(pre);
        }
        if !over {
            if v > DIGITS_BOUND / 10 || v * 10 + d > DIGITS_BOUND {
                over = true;
            } else {
                v = v * 10 + d;
            }
        }
        i = i + 1;
    }
    if over {
        Ok(None)
    } else {
        Ok(Some(v))
    }
}

/// The number that a string spells (see `str_num`).
pub fn string_to_num(s: &str) -> (r: Num)
    ensures
        r == str_num(s@),
{
    let n = s.unicode_len();
    if n == 0 {
        return Num::Int(0);
    }
    proof {
        assert(s@.subrange(0, n as int) =~= s@);
    }
    match read_digits(s, 0) {
        Ok(Some(v)) => {
            return if v <= i64::MAX as i128 { Num::Int(v as i64) } else { Num::NaN };
        },
        Ok(None) => {
            return Num::NaN;
        },
        Err(()) => {},
    }
    if s.get_char(0) != '-' || n == 1 {
        return Num::NaN;
    }
    proof {
        assert(s@.subrange(1, n as int) =~= s@.drop_first());
    }
    match read_digits(s, 1) {
        Ok(Some(v)) => {
            if v <= DIGITS_BOUND {
                Num::Int((-v) as i64)
            } else {
                Num::NaN
            }
        },
        Ok(None) => Num::NaN,
        Err(()) => Num::NaN,
    }
}

/// Lexicographic order of strings by character code.
pub open spec fn str_less(a: Seq<char>, b: Seq<char>) -> bool
    decreases a.len(),
{
    if a.len() == 0 {
        b.len() > 0
    } else if b.len() == 0 {
        false
    } else if a[0] != b[0] {
        (a[0] as u32) < (b[0] as u32)
    } else {
        str_less(a.drop_first(), b.drop_first())
    }
}

/// Whether `a` sorts before `b`.
pub fn string_less(a: &str, b: &str) -> (r: bool)
    ensures
        r == str_less(a@, b@),
{
    let n = a.unicode_len();
    let m = b.unicode_len();
    let mut i: usize = 0;
    proof {
        assert(a@.skip(0) =~= a@);
        assert(b@.skip(0) =~= b@);
    }
    while i < n && i < m
        invariant
            n == a@.len(),
            m == b@.len(),
            i <= n,
            i <= m,
            str_less(a@, b@) == str_less(a@.skip(i as int), b@.skip(i as int)),
        decreases n - i,
    {
        let x = a.get_char(i);
        let y = b.get_char(i);
        if x != y {
            proof {
                assert(a@.skip(i as int)[0] == x);
                assert(b@.skip(i as int)[0] == y);
            }
            return (x as u32) < (y as u32);
        }
        proof {
            assert(a@.skip(i as int).drop_first() =~= a@.skip(i + 1));
            assert(b@.skip(i as int).drop_first() =~= b@.skip(i + 1));
        }
        i = i + 1;
    }
    i == n && i < m
}

/// The largest array index: indices are at most 2^63 and fit in `usize`.
pub open spec fn index_bound() -> int {
    if usize::MAX < 0x8000_0000_0000_0000 { usize::MAX as int } else { 0x8000_0000_0000_0000 }
}

/// The array index that a name spells: the canonical decimal text of an
/// integer up to the bound.
pub open spec fn index_name(s: Seq<char>) -> Option<nat> {
    if exists|i: nat| i <= index_bound() && #[trigger] decimal(i) == s {
        Some(choose|i: nat| i <= index_bound() && #[trigger] decimal(i) == s)
    } else {
        None
    }
}

proof fn lemma_digit_char(d: nat)
    requires
        d < 10,
    ensures
        is_digit(digit_char(d)),
        digit_char(d) as int - '0' as int == d,
{
}

/// The decimal text of `n` is a run of digits that spells `n`.
pub proof fn lemma_decimal_digits(n: nat)
    ensures
        all_digits(decimal(n)),
        digits_value(decimal(n)) == n,
        decimal(n).len() > 0,
    decreases n,
{
    if n < 10 {
        lemma_digit_char(n);
        let d = decimal(n);
        assert(d.drop_last() =~= Seq::<char>::empty());
        assert(digits_value(d.drop_last()) == 0);
        assert(d.last() == digit_char(n));
        assert(digits_value(d) == 10 * digits_value(d.drop_last()) + (d.last() as int - '0' as int));
    } else {
        lemma_decimal_digits(n / 10);
        lemma_digit_char(n % 10);
        let d = decimal(n);
        assert(d.drop_last() =~= decimal(n / 10));
        assert(d.last() == digit_char(n % 10));
        assert(digits_value(d) == 10 * digits_value(d.drop_last()) + (d.last() as int - '0' as int));
        assert(10 * (n / 10) + n % 10 == n) by {
            vstd::arithmetic::div_mod::lemma_fundamental_div_mod(n as int, 10);
        }
        assert forall|i: int| 0 <= i < d.len() implies is_digit(#[trigger] d[i]) by {
            if i < d.len() - 1 {
                assert(d[i] == decimal(n / 10)[i]);
            }
        }
    }
}

/// `decimal` is one to one.
pub proof fn lemma_decimal_injective(a: nat, b: nat)
    requires
        decimal(a) == decimal(b),
    ensures
        a == b,
{
    lemma_decimal_digits(a);
    lemma_decimal_digits(b);
}

/// The array index that a property name spells, if it spells one.
pub fn parse_index(s: &str) -> (r: Option<usize>)
    ensures
        r matches Some(i) ==> index_name(s@) == Some(i as nat),
        r is None ==> index_name(s@) is None,
{
    let n = s.unicode_len();
    proof {
        assert(s@.subrange(0, n as int) =~= s@);
    }
    if n == 0 {
        proof {
            if index_name(s@) is Some {
                let i = choose|i: nat| i <= index_bound() && #[trigger] decimal(i) == s@;
                lemma_decimal_digits(i);
            }
        }
        return None;
    }
    match read_digits(s, 0) {
        Ok(Some(v)) => {
            if (v as u128) > (usize::MAX as u128) {
                proof {
                    if index_name(s@) is Some {
                        let i = choose|i: nat| i <= index_bound() && #[trigger] decimal(i) == s@;
                        lemma_decimal_digits(i);
                    }
                }
                return None;
            }
            let back = decimal_string(v as u64);
            let text = String::from_str(s);
            if back == text {
                proof {
                    assert(decimal(v as nat) == s@);
                    assert forall|i: nat| i <= index_bound() && #[trigger] decimal(i) == s@ implies i == v by {
                        lemma_decimal_injective(i, v as nat);
                    }
                }
                Some(v as usize)
            } else {
                proof {
                    if index_name(s@) is Some {
                        let i = choose|i: nat| i <= index_bound() && #[trigger] decimal(i) == s@;
                        lemma_decimal_digits(i);
                    }
                }
                None
            }
        },
        _ => {
            proof {
                if index_name(s@) is Some {
                    let i = choose|i: nat| i <= index_bound() && #[trigger] decimal(i) == s@;
                    lemma_decimal_digits(i);
                }
            }
            None
        },
    }
}

} // verus!
