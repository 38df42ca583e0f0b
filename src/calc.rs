//! What a CSS math function may contain where it is parsed.

use vstd::prelude::*;

verus! {

/// The name of the mathematical function being parsed.
#[derive(Clone, Copy, Debug, PartialEq, Eq, Structural)]
pub enum MathFunction {
    /// `calc()`
    Calc,
    /// `min()`
    Min,
    /// `max()`
    Max,
    /// `clamp()`
    Clamp,
    /// `round()`
    Round,
    /// `mod()`
    Mod,
    /// `rem()`
    Rem,
    /// `sin()`
    Sin,
    /// `cos()`
    Cos,
    /// `tan()`
    Tan,
    /// `asin()`
    Asin,
    /// `acos()`
    Acos,
    /// `atan()`
    Atan,
    /// `atan2()`
    Atan2,
    /// `pow()`
    Pow,
    /// `sqrt()`
    Sqrt,
    /// `hypot()`
    Hypot,
    /// `log()`
    Log,
    /// `exp()`
    Exp,
    /// `abs()`
    Abs,
    /// `sign()`
    Sign,
}

/// Whether anchor-positioning functions may be parsed inside `calc()`.
#[derive(Clone, Copy, Debug, PartialEq, Eq, Structural)]
pub enum AllowAnchorPositioningFunctions {
    /// No anchor-positioning function.
    No,
    /// `anchor-size()` only.
    AllowAnchorSize,
    /// `anchor()` and `anchor-size()`.
    AllowAnchorAndAnchorSize,
}

/// The `<length>` unit bit.
pub const UNITS_LENGTH: u8 = 1;

/// The `<percentage>` unit bit.
pub const UNITS_PERCENTAGE: u8 = 2;

/// The `<angle>` unit bit.
pub const UNITS_ANGLE: u8 = 4;

/// The `<time>` unit bit.
pub const UNITS_TIME: u8 = 8;

/// The `<resolution>` unit bit.
pub const UNITS_RESOLUTION: u8 = 16;

/// The color-component unit bit.
pub const UNITS_COLOR_COMPONENT: u8 = 32;

/// The `<length>` and `<percentage>` bits.
pub const UNITS_LENGTH_PERCENTAGE: u8 = 3;

/// Every unit bit.
pub const UNITS_ALL: u8 = 63;

/// The `anchor()` function bit.
pub const FUNCTION_ANCHOR: u8 = 1;

/// The `anchor-size()` function bit.
pub const FUNCTION_ANCHOR_SIZE: u8 = 2;

/// A set of units, one bit each.
#[derive(Clone, Copy, Debug, PartialEq, Eq, Structural)]
pub struct CalcUnits {
    pub bits: u8,
}

/// A set of functions allowed within math functions besides the math
/// functions themselves, one bit each.
#[derive(Clone, Copy, Debug, PartialEq, Eq, Structural)]
pub struct AdditionalFunctions {
    pub bits: u8,
}

/// What is allowed to be parsed for math functions in a context.
#[derive(Clone, Copy, Debug)]
pub struct AllowParse {
    units: CalcUnits,
    additional_functions: AdditionalFunctions,
}

impl AllowParse {
    /// The units allowed.
    pub closed spec fn unit_bits(&self) -> u8 {
        self.units.bits
    }

    /// The additional functions allowed.
    pub closed spec fn function_bits(&self) -> u8 {
        self.additional_functions.bits
    }

    /// Allows only the given units, and no additional function.
    pub fn new(units: CalcUnits) -> (r: AllowParse)
        ensures
            r.unit_bits() == units.bits,
            r.function_bits() == 0,
    {
        AllowParse { units, additional_functions: AdditionalFunctions { bits: 0 } }
    }

    /// Allows `<length>` and `<percentage>`, with the anchor-positioning
    /// functions that `allow_anchor` admits.
    pub fn for_length_percentage(allow_anchor: AllowAnchorPositioningFunctions) -> (r: AllowParse)
        ensures
            r.unit_bits() == UNITS_LENGTH_PERCENTAGE,
            r.function_bits() == match allow_anchor {
                AllowAnchorPositioningFunctions::No => 0u8,
                AllowAnchorPositioningFunctions::AllowAnchorSize => FUNCTION_ANCHOR_SIZE,
                AllowAnchorPositioningFunctions::AllowAnchorAndAnchorSize => (FUNCTION_ANCHOR
                    | FUNCTION_ANCHOR_SIZE),
            },
    {
        let units = CalcUnits { bits: UNITS_LENGTH_PERCENTAGE };
        match allow_anchor {
            AllowAnchorPositioningFunctions::No => AllowParse::new(units),
            AllowAnchorPositioningFunctions::AllowAnchorSize => AllowParse {
                units,
                additional_functions: AdditionalFunctions { bits: FUNCTION_ANCHOR_SIZE },
            },
            AllowAnchorPositioningFunctions::AllowAnchorAndAnchorSize => AllowParse {
                units,
                additional_functions: AdditionalFunctions {
                    bits: FUNCTION_ANCHOR | FUNCTION_ANCHOR_SIZE,
                },
            },
        }
    }

    /// Allows the given units too.
    pub fn new_including(self, units: CalcUnits) -> (r: AllowParse)
        ensures
            r.unit_bits() == (self.unit_bits() | units.bits),
            r.function_bits() == self.function_bits(),
    {
        AllowParse {
            units: CalcUnits { bits: self.units.bits | units.bits },
            additional_functions: self.additional_functions,
        }
    }

    /// Whether any of the given units is allowed.
    pub fn includes(&self, unit: CalcUnits) -> (r: bool)
        ensures
            r == (self.unit_bits() & unit.bits != 0),
    {
        self.units.bits & unit.bits != 0
    }

    /// Whether any of the given additional functions is allowed.
    pub fn allows_functions(&self, functions: AdditionalFunctions) -> (r: bool)
        ensures
            r == (self.function_bits() & functions.bits != 0),
    {
        self.additional_functions.bits & functions.bits != 0
    }
}

} // verus!
