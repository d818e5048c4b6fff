//! Exact decimal amounts, added through `rust_decimal`.
use vstd::prelude::*;

verus! {

/// Largest magnitude of a mantissa: a decimal holds 96 bits.
pub const MAX_MANTISSA: i128 = 0xFFFF_FFFF_FFFF_FFFF_FFFF_FFFF;

/// Largest number of digits after the point.
pub const MAX_SCALE: u32 = 28;

/// A decimal number `mantissa / 10^scale`, with a 96-bit mantissa and at
/// most 28 digits after the point.
#[derive(Debug, Clone, Copy, PartialEq, Eq, Structural)]
pub struct Amount {
    mantissa: i128,
    scale: u32,
}

/// The mantissa and scale are in the range a decimal can hold.
pub open spec fn in_range(v: (int, int)) -> bool {
    &&& -MAX_MANTISSA <= v.0 <= MAX_MANTISSA
    &&& 0 <= v.1 <= MAX_SCALE
}

impl View for Amount {
    /// The mantissa and the scale.
    type V = (int, int);

    closed spec fn view(&self) -> (int, int) {
        (self.mantissa as int, self.scale as int)
    }
}

impl Amount {
    #[verifier::type_invariant]
    spec fn inv(self) -> bool {
        in_range(self@)
    }

    /// The amount `num / 10^scale`.
    pub fn new(num: i64, scale: u32) -> (r: Amount)
        requires
            scale <= MAX_SCALE,
        ensures
            r@ == (num as int, scale as int),
    {
        Amount { mantissa: num as i128, scale }
    }

    /// The amount `mantissa / 10^scale`, where that is in range.
    pub fn from_parts(mantissa: i128, scale: u32) -> (r: Option<Amount>)
        ensures
            match r {
                Some(a) => a@ == (mantissa as int, scale as int),
                None => !in_range((mantissa as int, scale as int)),
            },
    {
        if scale <= MAX_SCALE && -MAX_MANTISSA <= mantissa && mantissa <= MAX_MANTISSA {
            Some(Amount { mantissa, scale })
        } else {
            None
        }
    }

    pub fn mantissa(&self) -> (r: i128)
        ensures
            r == self@.0,
    {
        self.mantissa
    }

    pub fn scale(&self) -> (r: u32)
        ensures
            r == self@.1,
    {
        self.scale
    }
}

/// The exact sum of two decimals of one scale, where its mantissa fits in 96 bits.
pub open spec fn same_scale_sum(a: (int, int), b: (int, int)) -> Option<(int, int)> {
    if a.1 == b.1 && -MAX_MANTISSA <= a.0 + b.0 <= MAX_MANTISSA {
        Some((a.0 + b.0, a.1))
    } else {
        None
    }
}

/// What `rust_decimal` returns for the checked sum of two decimals, as
/// mantissa and scale.
pub uninterp spec fn decimal_sum(a: (int, int), b: (int, int)) -> Option<(int, int)>;

/// Relies on rust_decimal::Decimal::checked_add: `None` where the sum does not
/// fit, else a decimal, whose mantissa and scale are in range; two decimals of
/// one scale whose mantissas sum within 96 bits add exactly, keeping that
/// scale. Decimal::from_i128_with_scale, `mantissa` and `scale` carry the
/// parts over without loss, and the type invariant keeps the parts in the
/// range where from_i128_with_scale does not panic.
#[verifier::external_body]
pub(crate) fn checked_add(a: Amount, b: Amount) -> (r: Option<Amount>)
    ensures
        match r {
            Some(s) => decimal_sum(a@, b@) == Some(s@),
            None => decimal_sum(a@, b@) is None,
        },
        same_scale_sum(a@, b@) is Some ==> r is Some && r->Some_0@ == same_scale_sum(a@, b@)->Some_0,
{
    let x = rust_decimal::Decimal::from_i128_with_scale(a.mantissa, a.scale);
    let y = rust_decimal::Decimal::from_i128_with_scale(b.mantissa, b.scale);
    x.checked_add(y).map(|s| Amount { mantissa: s.mantissa(), scale: s.scale() })
}

} // verus!
