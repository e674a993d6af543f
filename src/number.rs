use vstd::prelude::*;

verus! {

/// A number of the language.
///
/// Numbers are exact integers in the range of `i64`; every result that is
/// not such an integer (a fraction, an overflow, a division by zero) is `NaN`.
#[derive(Clone, Copy, Debug, PartialEq, Eq, Structural)]
pub enum Num {
    NaN,
    Int(i64),
}

pub open spec fn in_i64(x: int) -> bool {
    i64::MIN <= x <= i64::MAX
}

/// The number that stands for the mathematical integer `x`.
pub open spec fn num_of(x: int) -> Num {
    if in_i64(x) {
        Num::Int(x as i64)
    } else {
        Num::NaN
    }
}

/// `a + b`
pub open spec fn add_spec(a: Num, b: Num) -> Num {
    match (a, b) {
        (Num::Int(x), Num::Int(y)) => num_of(x + y),
        _ => Num::NaN,
    }
}

/// `a - b`
pub open spec fn sub_spec(a: Num, b: Num) -> Num {
    match (a, b) {
        (Num::Int(x), Num::Int(y)) => num_of(x - y),
        _ => Num::NaN,
    }
}

/// `a * b`
pub open spec fn mul_spec(a: Num, b: Num) -> Num {
    match (a, b) {
        (Num::Int(x), Num::Int(y)) => num_of(x * y),
        _ => Num::NaN,
    }
}

/// `a / b` on numbers.
pub open spec fn div_spec(a: Num, b: Num) -> Num {
    match (a, b) {
        (Num::Int(x), Num::Int(y)) => spec_div(x as int, y as int),
        _ => Num::NaN,
    }
}

/// `a % b` on numbers.
pub open spec fn rem_spec(a: Num, b: Num) -> Num {
    match (a, b) {
        (Num::Int(x), Num::Int(y)) => if y == 0 { Num::NaN } else { num_of(spec_rem(x as int, y as int)) },
        _ => Num::NaN,
    }
}

/// Truncation to a signed 32-bit integer, as the bitwise operators do.
pub open spec fn spec_to_i32(n: Num) -> i32 {
    match n {
        Num::NaN => 0i32,
        Num::Int(i) => i as i32,
    }
}

/// `b` divides `a` exactly.
pub open spec fn divides(b: int, a: int) -> bool {
    exists|q: int| a == #[trigger] (b * q)
}

/// The exact quotient `a / b`, or `NaN` where there is none.
pub open spec fn spec_div(a: int, b: int) -> Num {
    if b != 0 && divides(b, a) {
        num_of(choose|q: int| a == #[trigger] (b * q))
    } else {
        Num::NaN
    }
}

/// The remainder keeps the sign of the dividend.
pub open spec fn spec_rem(a: int, b: int) -> int {
    let m = (if a < 0 { -a } else { a }) % (if b < 0 { -b } else { b });
    if a < 0 { -m } else { m }
}

impl Num {
    pub fn from_usize(n: usize) -> (r: Num)
        ensures
            r == num_of(n as int),
    {
        if (n as u128) <= (i64::MAX as u128) {
            Num::Int(n as i64)
        } else {
            Num::NaN
        }
    }

    fn from_i128(x: i128) -> (r: Num)
        ensures
            r == num_of(x as int),
    {
        if i64::MIN as i128 <= x && x <= i64::MAX as i128 {
            Num::Int(x as i64)
        } else {
            Num::NaN
        }
    }

    pub fn is_nan(&self) -> (r: bool)
        ensures
            r == (*self is NaN),
    {
        match self {
            Num::NaN => true,
            Num::Int(_) => false,
        }
    }

    /// Numeric equality: `NaN` equals nothing, not even itself.
    pub fn num_eq(&self, other: &Num) -> (r: bool)
        ensures
            r == (*self is Int && *other is Int && self->Int_0 == other->Int_0),
    {
        match (self, other) {
            (Num::Int(a), Num::Int(b)) => *a == *b,
            _ => false,
        }
    }

    pub fn add(&self, other: &Num) -> (r: Num)
        ensures
            r == add_spec(*self, *other),
            (*self is Int && *other is Int) ==> r == num_of(self->Int_0 + other->Int_0),
            (*self is NaN || *other is NaN) ==> r is NaN,
    {
        match (self, other) {
            (Num::Int(a), Num::Int(b)) => Num::from_i128(*a as i128 + *b as i128),
            _ => Num::NaN,
        }
    }

    pub fn sub(&self, other: &Num) -> (r: Num)
        ensures
            r == sub_spec(*self, *other),
            (*self is Int && *other is Int) ==> r == num_of(self->Int_0 - other->Int_0),
            (*self is NaN || *other is NaN) ==> r is NaN,
    {
        match (self, other) {
            (Num::Int(a), Num::Int(b)) => Num::from_i128(*a as i128 - *b as i128),
            _ => Num::NaN,
        }
    }

    pub fn mul(&self, other: &Num) -> (r: Num)
        ensures
            r == mul_spec(*self, *other),
            (*self is Int && *other is Int) ==> r == num_of(self->Int_0 * other->Int_0),
            (*self is NaN || *other is NaN) ==> r is NaN,
    {
        match (self, other) {
            (Num::Int(a), Num::Int(b)) => {
                let x = *a as i128;
                let y = *b as i128;
                proof {
                    assert(-0x4000_0000_0000_0000_0000_0000_0000_0000 <= x * y <= 0x4000_0000_0000_0000_0000_0000_0000_0000)
                        by (nonlinear_arith)
                        requires
                            -0x8000_0000_0000_0000 <= x < 0x8000_0000_0000_0000,
                            -0x8000_0000_0000_0000 <= y < 0x8000_0000_0000_0000,
                    ;
                }
                Num::from_i128(x * y)
            },
            _ => Num::NaN,
        }
    }

    /// Division; a quotient that is not an integer is `NaN`.
    pub fn div(&self, other: &Num) -> (r: Num)
        ensures
            r == div_spec(*self, *other),
            (*self is Int && *other is Int) ==> r == spec_div(self->Int_0 as int, other->Int_0 as int),
            (*self is NaN || *other is NaN) ==> r is NaN,
    {
        match (self, other) {
            (Num::Int(a), Num::Int(b)) => {
                if *b == 0 {
                    return Num::NaN;
                }
                let x = *a as i128;
                let y = *b as i128;
                let ax: i128 = if x < 0 { -x } else { x };
                let ay: i128 = if y < 0 { -y } else { y };
                if ax % ay != 0 {
                    proof { lemma_div_exact_abs(x as int, y as int); }
                    return Num::NaN;
                }
                let q = ax / ay;
                let s: i128 = if (x < 0) == (y < 0) { q } else { -q };
                proof {
                    lemma_div_exact_abs(x as int, y as int);
                    lemma_quot_bound(ax as int, ay as int);
                }
                Num::from_i128(s)
            },
            _ => Num::NaN,
        }
    }

    /// Remainder; with a zero divisor it is `NaN`.
    pub fn rem(&self, other: &Num) -> (r: Num)
        ensures
            r == rem_spec(*self, *other),
            (*self is Int && *other is Int && other->Int_0 != 0) ==> r == num_of(
                spec_rem(self->Int_0 as int, other->Int_0 as int),
            ),
            (*self is Int && *other is Int && other->Int_0 == 0) ==> r is NaN,
            (*self is NaN || *other is NaN) ==> r is NaN,
    {
        match (self, other) {
            (Num::Int(a), Num::Int(b)) => {
                if *b == 0 {
                    return Num::NaN;
                }
                let x = *a as i128;
                let y = *b as i128;
                let ax: i128 = if x < 0 { -x } else { x };
                let ay: i128 = if y < 0 { -y } else { y };
                let m = ax % ay;
                proof { lemma_rem_bound(ax as int, ay as int); }
                Num::from_i128(if x < 0 { -m } else { m })
            },
            _ => Num::NaN,
        }
    }

    pub fn neg(&self) -> (r: Num)
        ensures
            *self is Int ==> r == num_of(-self->Int_0),
            *self is NaN ==> r is NaN,
    {
        match self {
            Num::Int(a) => Num::from_i128(-(*a as i128)),
            Num::NaN => Num::NaN,
        }
    }

    /// Numeric `<`; any comparison with `NaN` is false.
    pub fn less(&self, other: &Num) -> (r: bool)
        ensures
            r == (*self is Int && *other is Int && self->Int_0 < other->Int_0),
    {
        match (self, other) {
            (Num::Int(a), Num::Int(b)) => *a < *b,
            _ => false,
        }
    }

    pub fn to_i32(&self) -> (r: i32)
        ensures
            r == spec_to_i32(*self),
    {
        match self {
            Num::NaN => 0,
            Num::Int(i) => *i as i32,
        }
    }
}

proof fn lemma_div_exact_abs(x: int, y: int)
    requires
        y != 0,
    ensures
        ({
            let ax = if x < 0 { -x } else { x };
            let ay = if y < 0 { -y } else { y };
            &&& divides(y, x) == (ax % ay == 0)
            &&& ax % ay == 0 ==> (choose|q: int| x == #[trigger] (y * q)) == (if (x < 0) == (y < 0) {
                ax / ay
            } else {
                -(ax / ay)
            })
        }),
{
    let ax = if x < 0 { -x } else { x };
    let ay = if y < 0 { -y } else { y };
    vstd::arithmetic::div_mod::lemma_fundamental_div_mod(ax, ay);
    if divides(y, x) {
        let q = choose|q: int| x == #[trigger] (y * q);
        let aq = if q < 0 { -q } else { q };
        assert(ax == aq * ay) by (nonlinear_arith)
            requires
                x == y * q,
                ax == (if x < 0 { -x } else { x }),
                ay == (if y < 0 { -y } else { y }),
                aq == (if q < 0 { -q } else { q }),
        ;
        vstd::arithmetic::div_mod::lemma_mod_multiples_basic(aq, ay);
    }
    if ax % ay == 0 {
        let aq = ax / ay;
        let s = if (x < 0) == (y < 0) { aq } else { -aq };
        assert(x == y * s) by (nonlinear_arith)
            requires
                ax == ay * aq,
                ax == (if x < 0 { -x } else { x }),
                ay == (if y < 0 { -y } else { y }),
                s == (if (x < 0) == (y < 0) { aq } else { -aq }),
        ;
        assert(divides(y, x));
        let q = choose|q: int| x == #[trigger] (y * q);
        assert(q == s) by (nonlinear_arith)
            requires
                x == y * q,
                x == y * s,
                y != 0,
        ;
    }
}

proof fn lemma_quot_bound(ax: int, ay: int)
    requires
        0 <= ax,
        0 < ay,
    ensures
        0 <= ax / ay <= ax,
{
    vstd::arithmetic::div_mod::lemma_div_is_ordered_by_denominator(ax, 1, ay);
    vstd::arithmetic::div_mod::lemma_div_pos_is_pos(ax, ay);
}

proof fn lemma_rem_bound(ax: int, ay: int)
    requires
        0 <= ax,
        0 < ay,
    ensures
        0 <= ax % ay <= ax,
{
    vstd::arithmetic::div_mod::lemma_mod_bound(ax, ay);
    vstd::arithmetic::div_mod::lemma_mod_pos_bound(ax, ay);
    if ax < ay {
        vstd::arithmetic::div_mod::lemma_small_mod(ax as nat, ay as nat);
    } else {
    }
}

} // verus!
