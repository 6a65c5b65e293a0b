//! `mathcore::ext` submodule defines several small mathematical constructs: [`Sign`] and [`Color`].
//!

use vstd::prelude::*;

verus! {

/// [`Sign`] enum represents the sign of a number.
///
#[derive(Copy, Clone, Debug, PartialEq, Eq, Structural, Hash)]
pub enum Sign {
    /// Negative sign (-1).
    ///
    Negative,
    /// Zero (0).
    ///
    Zero,
    /// Positive sign (+1).
    ///
    Positive,
}

/// The number that a sign stands for.
///
pub open spec fn sign_value(sign: Sign) -> int {
    match sign {
        Sign::Negative => -1,
        Sign::Zero => 0,
        Sign::Positive => 1,
    }
}

/// Sign of the opposite number.
///
pub open spec fn negated(sign: Sign) -> Sign {
    match sign {
        Sign::Negative => Sign::Positive,
        Sign::Zero => Sign::Zero,
        Sign::Positive => Sign::Negative,
    }
}

/// Sign of a product.
///
pub open spec fn product(lhs: Sign, rhs: Sign) -> Sign {
    match (lhs, rhs) {
        (Sign::Positive, Sign::Positive) | (Sign::Negative, Sign::Negative) => Sign::Positive,
        (Sign::Positive, Sign::Negative) | (Sign::Negative, Sign::Positive) => Sign::Negative,
        _ => Sign::Zero,
    }
}

/// Sign of an integer.
///
pub open spec fn sign_of(value: int) -> Sign {
    if value > 0 {
        Sign::Positive
    } else if value < 0 {
        Sign::Negative
    } else {
        Sign::Zero
    }
}

impl Sign {
    /// Returns the number that the sign stands for (-1, 0 or 1).
    ///
    pub fn value(self) -> (value: i8)
        ensures
            value == sign_value(self),
    {
        match self {
            Sign::Negative => -1,
            Sign::Zero => 0,
            Sign::Positive => 1,
        }
    }
}

impl core::ops::Neg for Sign {
    type Output = Sign;

    /// Sign of the opposite number.
    ///
    fn neg(self) -> (sign: Sign)
        ensures
            sign == negated(self),
    {
        match self {
            Sign::Negative => Sign::Positive,
            Sign::Zero => Sign::Zero,
            Sign::Positive => Sign::Negative,
        }
    }
}

impl vstd::std_specs::ops::NegSpecImpl for Sign {
    open spec fn obeys_neg_spec() -> bool {
        true
    }

    open spec fn neg_req(self) -> bool {
        true
    }

    open spec fn neg_spec(self) -> Sign {
        negated(self)
    }
}

impl core::ops::Mul<Sign> for Sign {
    type Output = Sign;

    /// Sign of the product of two numbers.
    ///
    fn mul(self, rhs: Sign) -> (sign: Sign)
        ensures
            sign == product(self, rhs),
    {
        match (self, rhs) {
            (Sign::Positive, Sign::Positive) | (Sign::Negative, Sign::Negative) => Sign::Positive,
            (Sign::Positive, Sign::Negative) | (Sign::Negative, Sign::Positive) => Sign::Negative,
            _ => Sign::Zero,
        }
    }
}

impl vstd::std_specs::ops::MulSpecImpl<Sign> for Sign {
    open spec fn obeys_mul_spec() -> bool {
        true
    }

    open spec fn mul_req(self, rhs: Sign) -> bool {
        true
    }

    open spec fn mul_spec(self, rhs: Sign) -> Sign {
        product(self, rhs)
    }
}

impl From<i32> for Sign {
    /// Sign of `value`.
    ///
    fn from(value: i32) -> (sign: Sign)
        ensures
            sign == sign_of(value as int),
    {
        if value == 0 {
            Sign::Zero
        } else if value > 0 {
            Sign::Positive
        } else {
            Sign::Negative
        }
    }
}

impl vstd::std_specs::convert::FromSpecImpl<i32> for Sign {
    open spec fn obeys_from_spec() -> bool {
        true
    }

    open spec fn from_spec(value: i32) -> Sign {
        sign_of(value as int)
    }
}

/// [`Color`] struct represents RGBA color with 8 bits per channel.
///
#[derive(Copy, Clone, Debug, PartialEq, Eq, Structural, Hash)]
pub struct Color {
    /// Red channel.
    ///
    pub r: u8,
    /// Green channel.
    ///
    pub g: u8,
    /// Blue channel.
    ///
    pub b: u8,
    /// Alpha channel.
    ///
    pub a: u8,
}

impl Color {
    /// Opaque white.
    ///
    pub fn white() -> (color: Color)
        ensures
            color == (Color { r: 255, g: 255, b: 255, a: 255 }),
    {
        Color { r: 255, g: 255, b: 255, a: 255 }
    }

    /// Opaque black.
    ///
    pub fn black() -> (color: Color)
        ensures
            color == (Color { r: 0, g: 0, b: 0, a: 255 }),
    {
        Color { r: 0, g: 0, b: 0, a: 255 }
    }

    /// Opaque red.
    ///
    pub fn red() -> (color: Color)
        ensures
            color == (Color { r: 255, g: 0, b: 0, a: 255 }),
    {
        Color { r: 255, g: 0, b: 0, a: 255 }
    }

    /// Opaque green.
    ///
    pub fn green() -> (color: Color)
        ensures
            color == (Color { r: 0, g: 255, b: 0, a: 255 }),
    {
        Color { r: 0, g: 255, b: 0, a: 255 }
    }

    /// Opaque blue.
    ///
    pub fn blue() -> (color: Color)
        ensures
            color == (Color { r: 0, g: 0, b: 255, a: 255 }),
    {
        Color { r: 0, g: 0, b: 255, a: 255 }
    }

    /// Opaque yellow.
    ///
    pub fn yellow() -> (color: Color)
        ensures
            color == (Color { r: 255, g: 255, b: 0, a: 255 }),
    {
        Color { r: 255, g: 255, b: 0, a: 255 }
    }

    /// Opaque cyan.
    ///
    pub fn cyan() -> (color: Color)
        ensures
            color == (Color { r: 0, g: 255, b: 255, a: 255 }),
    {
        Color { r: 0, g: 255, b: 255, a: 255 }
    }

    /// Opaque magenta.
    ///
    pub fn magenta() -> (color: Color)
        ensures
            color == (Color { r: 255, g: 0, b: 255, a: 255 }),
    {
        Color { r: 255, g: 0, b: 255, a: 255 }
    }

    /// Constructs color from RGBA values.
    ///
    pub fn from_rgba(r: u8, g: u8, b: u8, a: u8) -> (color: Color)
        ensures
            color == (Color { r, g, b, a }),
    {
        Color { r, g, b, a }
    }

    /// Returns RGBA values of the color.
    ///
    pub fn to_rgba(self) -> (rgba: (u8, u8, u8, u8))
        ensures
            rgba == (self.r, self.g, self.b, self.a),
    {
        (self.r, self.g, self.b, self.a)
    }
}

/// Law: negating a sign twice gives it back.
///
pub proof fn law_negation_is_involutive(sign: Sign)
    ensures
        negated(negated(sign)) == sign,
        sign_value(negated(sign)) == -sign_value(sign),
{
}

/// Law: the sign of a product does not depend on the order of the factors, and stands for the
/// product of the numbers the factors stand for.
///
pub proof fn law_product_of_signs(lhs: Sign, rhs: Sign)
    ensures
        product(lhs, rhs) == product(rhs, lhs),
        sign_value(product(lhs, rhs)) == sign_value(lhs) * sign_value(rhs),
{
}

/// Law: the sign of a product of integers is the product of their signs.
///
pub proof fn law_sign_of_product(x: int, y: int)
    ensures
        sign_of(x * y) == product(sign_of(x), sign_of(y)),
{
    if x > 0 && y > 0 {
        assert(x * y > 0) by (nonlinear_arith)
            requires
                x > 0,
                y > 0,
        ;
    } else if x < 0 && y < 0 {
        assert(x * y > 0) by (nonlinear_arith)
            requires
                x < 0,
                y < 0,
        ;
    } else if x > 0 && y < 0 {
        assert(x * y < 0) by (nonlinear_arith)
            requires
                x > 0,
                y < 0,
        ;
    } else if x < 0 && y > 0 {
        assert(x * y < 0) by (nonlinear_arith)
            requires
                x < 0,
                y > 0,
        ;
    } else {
        assert(x * y == 0) by (nonlinear_arith)
            requires
                x == 0 || y == 0,
        ;
    }
}

} // verus!
