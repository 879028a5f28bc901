//! Exact scalar arithmetic: a number is a fraction of two 64-bit integers
//! with a positive denominator.  Fractions are not reduced; an operation
//! whose exact result does not fit this form reports an error instead of
//! rounding.

use vstd::prelude::*;

verus! {

/// A scalar: the fraction `num / den`.
#[derive(Debug, Clone, Copy, PartialEq, Eq, Structural)]
pub struct Number {
    pub num: i64,
    pub den: i64,
}

/// The mathematical fraction of a scalar.
pub ghost struct RatV {
    pub n: int,
    pub d: int,
}

impl View for Number {
    type V = RatV;

    open spec fn view(&self) -> RatV {
        RatV { n: self.num as int, d: self.den as int }
    }
}

/// A well-formed fraction has a positive denominator.
pub open spec fn rat_wf(a: RatV) -> bool {
    a.d >= 1
}

/// Whether an integer fits a 64-bit signed word.
pub open spec fn fits_i64(x: int) -> bool {
    i64::MIN <= x <= i64::MAX
}

/// An error of exact scalar arithmetic.
#[derive(Debug, Clone, Copy, PartialEq, Eq, Structural)]
pub enum ArithError {
    /// Division by an exact zero.
    DivisionByZero,
    /// The exact result does not fit a 64-bit fraction.
    Overflow,
    /// The exact result is not a rational number (a non-integer exponent).
    NotRepresentable,
}

/// Builds the fraction `n / d`, normalising the sign onto the numerator.
pub open spec fn mk_rat(n: int, d: int) -> Result<RatV, ArithError> {
    if d == 0 {
        Err(ArithError::DivisionByZero)
    } else {
        let n2 = if d < 0 {
            -n
        } else {
            n
        };
        let d2 = if d < 0 {
            -d
        } else {
            d
        };
        if fits_i64(n2) && fits_i64(d2) {
            Ok(RatV { n: n2, d: d2 })
        } else {
            Err(ArithError::Overflow)
        }
    }
}

/// Exact sum of two fractions.
pub open spec fn rat_add_v(a: RatV, b: RatV) -> Result<RatV, ArithError> {
    mk_rat(a.n * b.d + b.n * a.d, a.d * b.d)
}

/// Exact difference of two fractions.
pub open spec fn rat_sub_v(a: RatV, b: RatV) -> Result<RatV, ArithError> {
    mk_rat(a.n * b.d - b.n * a.d, a.d * b.d)
}

/// Exact product of two fractions.
pub open spec fn rat_mul_v(a: RatV, b: RatV) -> Result<RatV, ArithError> {
    mk_rat(a.n * b.n, a.d * b.d)
}

/// Exact quotient of two fractions; a zero divisor is an error.
pub open spec fn rat_div_v(a: RatV, b: RatV) -> Result<RatV, ArithError> {
    if b.n == 0 {
        Err(ArithError::DivisionByZero)
    } else {
        mk_rat(a.n * b.d, a.d * b.n)
    }
}

/// The fraction one.
pub open spec fn rat_one() -> RatV {
    RatV { n: 1, d: 1 }
}

/// The fraction zero.
pub open spec fn rat_zero() -> RatV {
    RatV { n: 0, d: 1 }
}

/// Repeated multiplication by `a`, `k` times, over 64-bit fractions.
/// Exponents above 128 report overflow; every base this is applied to has
/// magnitude other than 0 and 1, so its 128th power already exceeds any
/// 64-bit fraction and the bound hides no representable result.
pub open spec fn rat_pow_loop(a: RatV, k: nat) -> Result<RatV, ArithError>
    decreases k,
{
    if k == 0 {
        Ok(rat_one())
    } else if k > 128 {
        Err(ArithError::Overflow)
    } else {
        match rat_pow_loop(a, (k - 1) as nat) {
            Err(e) => Err(e),
            Ok(p) => rat_mul_v(p, a),
        }
    }
}

/// Exact power of one fraction by another.  The exponent must be an exact
/// integer; bases 0, 1 and -1 have closed forms, every other base is
/// multiplied out.
pub open spec fn rat_pow_v(a: RatV, b: RatV) -> Result<RatV, ArithError> {
    if b.n % b.d != 0 {
        Err(ArithError::NotRepresentable)
    } else {
        let k = b.n / b.d;
        if a.n == 0 {
            if k > 0 {
                Ok(rat_zero())
            } else if k == 0 {
                Ok(rat_one())
            } else {
                Err(ArithError::DivisionByZero)
            }
        } else if a.n == a.d {
            Ok(rat_one())
        } else if a.n == -a.d {
            if k % 2 == 0 {
                Ok(rat_one())
            } else {
                Ok(RatV { n: -1, d: 1 })
            }
        } else if k >= 0 {
            rat_pow_loop(a, k as nat)
        } else {
            match mk_rat(a.d, a.n) {
                Err(e) => Err(e),
                Ok(inv) => rat_pow_loop(inv, (-k) as nat),
            }
        }
    }
}

/// The product of two 64-bit values fits well inside 128 bits.
proof fn lemma_prod_bounds(a: int, b: int)
    requires
        -0x8000000000000000 <= a <= 0x7fffffffffffffff,
        -0x8000000000000000 <= b <= 0x7fffffffffffffff,
    ensures
        -0x40000000000000000000000000000000 <= a * b <= 0x40000000000000000000000000000000,
{
    assert(-0x40000000000000000000000000000000 <= a * b
        <= 0x40000000000000000000000000000000) by (nonlinear_arith)
        requires
            -0x8000000000000000 <= a <= 0x7fffffffffffffff,
            -0x8000000000000000 <= b <= 0x7fffffffffffffff,
    ;
}

/// The product of a 64-bit value and a positive denominator leaves room for
/// one more such product in 128 bits.
proof fn lemma_prod_bounds_den(a: int, d: int)
    requires
        -0x8000000000000000 <= a <= 0x7fffffffffffffff,
        1 <= d <= 0x7fffffffffffffff,
    ensures
        -0x3fffffffffffffff8000000000000000 <= a * d <= 0x3fffffffffffffff8000000000000000,
{
    assert(-0x3fffffffffffffff8000000000000000 <= a * d
        <= 0x3fffffffffffffff8000000000000000) by (nonlinear_arith)
        requires
            -0x8000000000000000 <= a <= 0x7fffffffffffffff,
            1 <= d <= 0x7fffffffffffffff,
    ;
}

impl Number {
    /// The scalar `v / 1`.
    pub fn from_int(v: i64) -> (r: Number)
        ensures
            r@ == (RatV { n: v as int, d: 1 }),
            rat_wf(r@),
    {
        Number { num: v, den: 1 }
    }

    /// Builds the exact fraction held in a pair of 128-bit words.
    fn from_i128(n: i128, d: i128) -> (r: Result<Number, ArithError>)
        requires
            n != i128::MIN,
            d != i128::MIN,
        ensures
            match r {
                Ok(c) => mk_rat(n as int, d as int) == Ok::<RatV, ArithError>(c@) && rat_wf(c@),
                Err(e) => mk_rat(n as int, d as int) == Err::<RatV, ArithError>(e),
            },
    {
        if d == 0 {
            return Err(ArithError::DivisionByZero);
        }
        let n2: i128 = if d < 0 {
            -n
        } else {
            n
        };
        let d2: i128 = if d < 0 {
            -d
        } else {
            d
        };
        if n2 >= i64::MIN as i128 && n2 <= i64::MAX as i128 && d2 <= i64::MAX as i128 {
            Ok(Number { num: n2 as i64, den: d2 as i64 })
        } else {
            Err(ArithError::Overflow)
        }
    }

    /// Exact sum.
    pub fn add(self, other: Number) -> (r: Result<Number, ArithError>)
        requires
            rat_wf(self@),
            rat_wf(other@),
        ensures
            match r {
                Ok(c) => rat_add_v(self@, other@) == Ok::<RatV, ArithError>(c@) && rat_wf(c@),
                Err(e) => rat_add_v(self@, other@) == Err::<RatV, ArithError>(e),
            },
    {
        proof {
            lemma_prod_bounds_den(self.num as int, other.den as int);
            lemma_prod_bounds_den(other.num as int, self.den as int);
            lemma_prod_bounds(self.den as int, other.den as int);
        }
        let n: i128 = (self.num as i128) * (other.den as i128) + (other.num as i128) * (self.den
            as i128);
        let d: i128 = (self.den as i128) * (other.den as i128);
        Self::from_i128(n, d)
    }

    /// Exact difference.
    pub fn sub(self, other: Number) -> (r: Result<Number, ArithError>)
        requires
            rat_wf(self@),
            rat_wf(other@),
        ensures
            match r {
                Ok(c) => rat_sub_v(self@, other@) == Ok::<RatV, ArithError>(c@) && rat_wf(c@),
                Err(e) => rat_sub_v(self@, other@) == Err::<RatV, ArithError>(e),
            },
    {
        proof {
            lemma_prod_bounds_den(self.num as int, other.den as int);
            lemma_prod_bounds_den(other.num as int, self.den as int);
            lemma_prod_bounds(self.den as int, other.den as int);
        }
        let n: i128 = (self.num as i128) * (other.den as i128) - (other.num as i128) * (self.den
            as i128);
        let d: i128 = (self.den as i128) * (other.den as i128);
        Self::from_i128(n, d)
    }

    /// Exact product.
    pub fn mul(self, other: Number) -> (r: Result<Number, ArithError>)
        requires
            rat_wf(self@),
            rat_wf(other@),
        ensures
            match r {
                Ok(c) => rat_mul_v(self@, other@) == Ok::<RatV, ArithError>(c@) && rat_wf(c@),
                Err(e) => rat_mul_v(self@, other@) == Err::<RatV, ArithError>(e),
            },
    {
        proof {
            lemma_prod_bounds(self.num as int, other.num as int);
            lemma_prod_bounds(self.den as int, other.den as int);
        }
        let n: i128 = (self.num as i128) * (other.num as i128);
        let d: i128 = (self.den as i128) * (other.den as i128);
        Self::from_i128(n, d)
    }

    /// Exact quotient; a zero divisor is an error.
    pub fn div(self, other: Number) -> (r: Result<Number, ArithError>)
        requires
            rat_wf(self@),
            rat_wf(other@),
        ensures
            match r {
                Ok(c) => rat_div_v(self@, other@) == Ok::<RatV, ArithError>(c@) && rat_wf(c@),
                Err(e) => rat_div_v(self@, other@) == Err::<RatV, ArithError>(e),
            },
    {
        if other.num == 0 {
            return Err(ArithError::DivisionByZero);
        }
        proof {
            lemma_prod_bounds(self.num as int, other.den as int);
            lemma_prod_bounds(self.den as int, other.num as int);
        }
        let n: i128 = (self.num as i128) * (other.den as i128);
        let d: i128 = (self.den as i128) * (other.num as i128);
        Self::from_i128(n, d)
    }

    /// Exact power by an integer exponent, multiplied out.
    #[verifier::loop_isolation(false)]
    pub fn pow(self, other: Number) -> (r: Result<Number, ArithError>)
        requires
            rat_wf(self@),
            rat_wf(other@),
        ensures
            match r {
                Ok(c) => rat_pow_v(self@, other@) == Ok::<RatV, ArithError>(c@) && rat_wf(c@),
                Err(e) => rat_pow_v(self@, other@) == Err::<RatV, ArithError>(e),
            },
    {
        // Split the exponent into sign and magnitude; division is exact on
        // the magnitude, and an exact magnitude quotient matches the
        // mathematical quotient of the signed fraction.
        let neg = other.num < 0;
        let mag: u64 = if neg {
            (-(other.num as i128)) as u64
        } else {
            other.num as u64
        };
        let den: u64 = other.den as u64;
        if mag % den != 0 {
            proof {
                lemma_exact_division(other.num as int, other.den as int, mag as int, den as int);
            }
            return Err(ArithError::NotRepresentable);
        }
        let kmag: u64 = mag / den;
        let ghost k: int = other@.n / other@.d;
        proof {
            lemma_exact_division(other.num as int, other.den as int, mag as int, den as int);
            if other.num >= 0 {
                assert(k == kmag as int);
            } else {
                assert(k == -(kmag as int));
            }
        }
        if self.num == 0 {
            if !neg && kmag > 0 {
                return Ok(Number { num: 0, den: 1 });
            } else if kmag == 0 {
                return Ok(Number { num: 1, den: 1 });
            } else {
                return Err(ArithError::DivisionByZero);
            }
        }
        if self.num == self.den {
            return Ok(Number { num: 1, den: 1 });
        }
        if self.num == -self.den {
            proof {
                lemma_parity(other.num as int, other.den as int, mag as int, den as int);
            }
            if kmag % 2 == 0 {
                return Ok(Number { num: 1, den: 1 });
            } else {
                return Ok(Number { num: -1, den: 1 });
            }
        }
        proof {
            if neg {
                vstd::arithmetic::div_mod::lemma_fundamental_div_mod(mag as int, den as int);
                assert(mag as int >= 1);
                assert(kmag as int >= 1) by {
                    if kmag as int == 0 {
                        assert(mag as int == den as int * (mag as int / den as int) + (mag as int
                            % den as int));
                        assert(den as int * 0 == 0) by (nonlinear_arith);
                    }
                };
                assert(k < 0);
            } else {
                assert(k >= 0);
            }
        }
        let base = if neg {
            match Self::from_i128(self.den as i128, self.num as i128) {
                Ok(b) => b,
                Err(e) => {
                    return Err(e);
                },
            }
        } else {
            self
        };
        if kmag > 128 {
            return Err(ArithError::Overflow);
        }
        let mut acc = Number { num: 1, den: 1 };
        let mut j: u64 = 0;
        while j < kmag
            invariant
                j <= kmag,
                kmag <= 128,
                rat_wf(base@),
                rat_wf(acc@),
                rat_pow_loop(base@, j as nat) == Ok::<RatV, ArithError>(acc@),
        decreases kmag - j,
        {
            match acc.mul(base) {
                Ok(next) => {
                    acc = next;
                },
                Err(e) => {
                    proof {
                        assert(rat_pow_loop(base@, (j + 1) as nat) == Err::<RatV, ArithError>(e));
                        lemma_pow_loop_error(base@, (j + 1) as nat, kmag as nat, e);
                        assert(rat_pow_loop(base@, kmag as nat) == Err::<RatV, ArithError>(e));
                    }
                    return Err(e);
                },
            }
            j += 1;
        }
        Ok(acc)
    }
}

/// An error in a finished power loop persists to every larger exponent up
/// to the cap.
proof fn lemma_pow_loop_error(a: RatV, j: nat, k: nat, e: ArithError)
    requires
        j <= k,
        k <= 128,
        rat_pow_loop(a, j) == Err::<RatV, ArithError>(e),
    ensures
        rat_pow_loop(a, k) == Err::<RatV, ArithError>(e),
    decreases k - j,
{
    if j < k {
        lemma_pow_loop_error(a, j + 1, k, e);
    }
}

/// Exact magnitude division matches signed division when the remainder
/// vanishes.
proof fn lemma_exact_division(n: int, d: int, mag: int, dmag: int)
    requires
        d >= 1,
        dmag == d,
        mag == if n >= 0 {
            n
        } else {
            -n
        },
    ensures
        (mag % dmag == 0) == (n % d == 0),
        mag % dmag == 0 && n >= 0 ==> n / d == mag / dmag,
        mag % dmag == 0 && n < 0 ==> n / d == -(mag / dmag),
{
    if n >= 0 {
    } else {
        vstd::arithmetic::div_mod::lemma_fundamental_div_mod(mag, d);
        if mag % dmag == 0 {
            assert(n == d * (-(mag / dmag)) + 0) by {
                assert(mag == d * (mag / dmag));
                assert(d * (-(mag / dmag)) == -(d * (mag / dmag))) by (nonlinear_arith);
            };
            vstd::arithmetic::div_mod::lemma_fundamental_div_mod_converse(
                n,
                d,
                -(mag / dmag),
                0,
            );
        } else {
            if n % d == 0 {
                vstd::arithmetic::div_mod::lemma_fundamental_div_mod(n, d);
                assert(mag == d * (-(n / d)) + 0) by {
                    assert(n == d * (n / d));
                    assert(d * (-(n / d)) == -(d * (n / d))) by (nonlinear_arith);
                };
                vstd::arithmetic::div_mod::lemma_fundamental_div_mod_converse(
                    mag,
                    dmag,
                    -(n / d),
                    0,
                );
            }
        }
    }
}

/// The parity of the exact quotient matches the parity of the magnitude
/// quotient.
proof fn lemma_parity(n: int, d: int, mag: int, dmag: int)
    requires
        d >= 1,
        dmag == d,
        mag == if n >= 0 {
            n
        } else {
            -n
        },
        mag % dmag == 0,
    ensures
        ((n / d) % 2 == 0) == ((mag / dmag) % 2 == 0),
{
    lemma_exact_division(n, d, mag, dmag);
    if n < 0 {
        let q = mag / dmag;
        if q % 2 == 0 {
            vstd::arithmetic::div_mod::lemma_fundamental_div_mod_converse(-q, 2, -(q / 2), 0);
        } else {
            vstd::arithmetic::div_mod::lemma_fundamental_div_mod(q, 2);
            vstd::arithmetic::div_mod::lemma_fundamental_div_mod_converse(
                -q,
                2,
                -(q / 2) - 1,
                1,
            );
        }
    }
}

} // verus!
