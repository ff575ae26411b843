//! Signs, powers of ten, and exact numbers: decimals and ratios.
use vstd::prelude::*;

verus! {

/// The largest number of fraction digits a well-formed [`Decimal`] carries.
pub const MAX_SCALE: u16 = 17;

/// Direction of a signed quantity, kept apart from its magnitude so that a
/// negative zero stays negative.
#[derive(Clone, Copy, Debug, PartialEq, Eq, Structural)]
pub enum Sign {
    Positive,
    Negative,
}

impl Sign {
    /// The sign that a sign flag stands for.
    pub open spec fn of(negative: bool) -> Sign {
        if negative {
            Sign::Negative
        } else {
            Sign::Positive
        }
    }

    /// Whether this is `Negative`.
    pub fn is_negative(&self) -> (r: bool)
        ensures
            r == (*self == Sign::Negative),
            Sign::of(r) == *self,
    {
        match self {
            Sign::Positive => false,
            Sign::Negative => true,
        }
    }

    /// The sign that a sign flag stands for.
    pub fn from_flag(negative: bool) -> (r: Sign)
        ensures
            r == Sign::of(negative),
    {
        if negative {
            Sign::Negative
        } else {
            Sign::Positive
        }
    }
}

/// `10` raised to `k`.
pub open spec fn pow10(k: nat) -> nat
    decreases k,
{
    if k == 0 {
        1
    } else {
        10 * pow10((k - 1) as nat)
    }
}

/// Powers of ten grow with the exponent, and those within [`MAX_SCALE`] stay
/// at or below `10^17`.
pub proof fn lemma_pow10_bound(k: nat)
    ensures
        pow10(k) >= 1,
        k <= MAX_SCALE ==> pow10(k) <= 100_000_000_000_000_000,
    decreases k,
{
    reveal_with_fuel(pow10, 18);
    if k > 0 {
        lemma_pow10_bound((k - 1) as nat);
    }
    if k <= MAX_SCALE {
        assert(pow10(17) == 100_000_000_000_000_000);
        lemma_pow10_monotonic(k, 17);
    }
}

/// The power of a sum is the product of the powers.
pub proof fn lemma_pow10_product(i: nat, j: nat)
    ensures
        pow10(i) * pow10(j) == pow10(i + j),
    decreases i,
{
    if i > 0 {
        let a = pow10((i - 1) as nat);
        let b = pow10(j);
        lemma_pow10_product((i - 1) as nat, j);
        assert(pow10(i) == 10 * a);
        assert(pow10(i + j) == 10 * pow10(((i - 1) as nat) + j));
        assert((10 * a) * b == 10 * (a * b)) by (nonlinear_arith);
    } else {
        assert(pow10(0) == 1);
        assert(1 * pow10(j) == pow10(j));
    }
}

/// A smaller exponent gives a smaller or equal power of ten.
pub proof fn lemma_pow10_monotonic(i: nat, j: nat)
    requires
        i <= j,
    ensures
        pow10(i) <= pow10(j),
    decreases j,
{
    if i < j {
        lemma_pow10_monotonic(i, (j - 1) as nat);
    }
}

/// `10^k` for a scale within [`MAX_SCALE`].
pub fn power_of_ten(k: u16) -> (r: u64)
    requires
        k <= MAX_SCALE,
    ensures
        r == pow10(k as nat),
        1 <= r <= 100_000_000_000_000_000,
{
    let mut r: u64 = 1;
    let mut i: u16 = 0;
    while i < k
        invariant
            i <= k <= MAX_SCALE,
            r == pow10(i as nat),
        decreases k - i,
    {
        proof {
            lemma_pow10_bound(i as nat);
            lemma_pow10_bound((i + 1) as nat);
        }
        r = r * 10;
        i = i + 1;
    }
    proof {
        lemma_pow10_bound(k as nat);
    }
    r
}

/// An exact decimal number in sign-magnitude form: `mantissa / 10^scale`,
/// negated when `negative` is set. Zero has both signs.
///
/// Two decimals are equal when they are written alike: `1.0` and `1.00` are the
/// same number, but not equal.
///
/// What is read or built has at most [`MAX_SCALE`] places and is well formed.
/// More places stand only in a small angle that a conversion gave, which keeps
/// its sixteen digits wherever they lie.
#[derive(Clone, Copy, Debug, PartialEq, Eq, Structural)]
pub struct Decimal {
    pub negative: bool,
    pub mantissa: u64,
    pub scale: u16,
}

impl Decimal {
    /// A decimal is well formed when it has at most [`MAX_SCALE`] places.
    pub open spec fn wf(&self) -> bool {
        self.scale <= MAX_SCALE
    }

    /// The power of ten that the mantissa is divided by.
    pub open spec fn denominator(&self) -> nat {
        pow10(self.scale as nat)
    }

    /// Builds `mantissa / 10^scale` with the given sign, if the scale is allowed.
    pub fn new(negative: bool, mantissa: u64, scale: u16) -> (r: Option<Decimal>)
        ensures
            r == if scale <= MAX_SCALE {
                Some(Decimal { negative, mantissa, scale })
            } else {
                None
            },
    {
        if scale <= MAX_SCALE {
            Some(Decimal { negative, mantissa, scale })
        } else {
            None
        }
    }
}

/// An exact fraction in sign-magnitude form: `numerator / denominator`, negated
/// when `negative` is set. It is not kept in lowest terms.
#[derive(Clone, Copy, Debug, PartialEq, Eq, Structural)]
pub struct Ratio {
    pub negative: bool,
    pub numerator: u128,
    pub denominator: u128,
}

impl Ratio {
    /// A ratio is well formed when its denominator is not zero.
    pub open spec fn wf(&self) -> bool {
        self.denominator > 0
    }

    /// Whether this ratio and the decimal `x` are the same number with the same
    /// sign flag.
    pub open spec fn same_as(&self, x: Decimal) -> bool {
        &&& self.negative == x.negative
        &&& self.numerator * x.denominator() == x.mantissa * self.denominator
    }
}

} // verus!
