//! Temperature units: Celsius, Fahrenheit and Kelvin, each named by one letter.

use vstd::prelude::*;

verus! {

/// The three temperature scales.
#[derive(Clone, Copy, Debug, PartialEq, Eq, Structural)]
pub enum Scale {
    Celsius,
    Fahrenheit,
    Kelvin,
}

/// A temperature unit as written: its scale, and whether its letter was lower
/// case. Two units compare equal when their scales do, whatever the case.
#[derive(Clone, Copy, Debug)]
pub struct TempUnit {
    pub scale: Scale,
    pub lower: bool,
}

/// A letter that is not the name of a temperature unit.
#[derive(Clone, Copy, Debug, PartialEq, Eq, Structural)]
pub struct InvalidUnit {
    pub unit: char,
}

/// The unit that the letter `c` names, in either case.
pub open spec fn unit_of_char(c: char) -> Option<TempUnit> {
    if c == 'C' {
        Some(TempUnit { scale: Scale::Celsius, lower: false })
    } else if c == 'c' {
        Some(TempUnit { scale: Scale::Celsius, lower: true })
    } else if c == 'F' {
        Some(TempUnit { scale: Scale::Fahrenheit, lower: false })
    } else if c == 'f' {
        Some(TempUnit { scale: Scale::Fahrenheit, lower: true })
    } else if c == 'K' {
        Some(TempUnit { scale: Scale::Kelvin, lower: false })
    } else if c == 'k' {
        Some(TempUnit { scale: Scale::Kelvin, lower: true })
    } else {
        None
    }
}

/// The letter of a unit, in the case it was written.
pub open spec fn char_of_unit(u: TempUnit) -> char {
    match (u.scale, u.lower) {
        (Scale::Celsius, false) => 'C',
        (Scale::Celsius, true) => 'c',
        (Scale::Fahrenheit, false) => 'F',
        (Scale::Fahrenheit, true) => 'f',
        (Scale::Kelvin, false) => 'K',
        (Scale::Kelvin, true) => 'k',
    }
}

impl TempUnit {
    /// The unit of `scale`, written upper case.
    pub fn new(scale: Scale) -> (r: TempUnit)
        ensures
            r == (TempUnit { scale, lower: false }),
    {
        TempUnit { scale, lower: false }
    }

    /// The unit named by the letter `c` (C, F or K, in either case).
    pub fn try_from(c: char) -> (r: Result<TempUnit, InvalidUnit>)
        ensures
            match unit_of_char(c) {
                Some(u) => r == Ok::<TempUnit, InvalidUnit>(u),
                None => r == Err::<TempUnit, InvalidUnit>(InvalidUnit { unit: c }),
            },
    {
        if c == 'C' {
            Ok(TempUnit { scale: Scale::Celsius, lower: false })
        } else if c == 'c' {
            Ok(TempUnit { scale: Scale::Celsius, lower: true })
        } else if c == 'F' {
            Ok(TempUnit { scale: Scale::Fahrenheit, lower: false })
        } else if c == 'f' {
            Ok(TempUnit { scale: Scale::Fahrenheit, lower: true })
        } else if c == 'K' {
            Ok(TempUnit { scale: Scale::Kelvin, lower: false })
        } else if c == 'k' {
            Ok(TempUnit { scale: Scale::Kelvin, lower: true })
        } else {
            Err(InvalidUnit { unit: c })
        }
    }

    /// The letter of the unit, in the case it was written.
    pub fn to_char(&self) -> (r: char)
        ensures
            r == char_of_unit(*self),
    {
        match (self.scale, self.lower) {
            (Scale::Celsius, false) => 'C',
            (Scale::Celsius, true) => 'c',
            (Scale::Fahrenheit, false) => 'F',
            (Scale::Fahrenheit, true) => 'f',
            (Scale::Kelvin, false) => 'K',
            (Scale::Kelvin, true) => 'k',
        }
    }

    /// The letter of the unit as text.
    pub fn display(&self) -> (r: &'static str)
        ensures
            r@ == seq![char_of_unit(*self)],
    {
        proof {
            reveal_strlit("C");
            reveal_strlit("c");
            reveal_strlit("F");
            reveal_strlit("f");
            reveal_strlit("K");
            reveal_strlit("k");
        }
        match (self.scale, self.lower) {
            (Scale::Celsius, false) => "C",
            (Scale::Celsius, true) => "c",
            (Scale::Fahrenheit, false) => "F",
            (Scale::Fahrenheit, true) => "f",
            (Scale::Kelvin, false) => "K",
            (Scale::Kelvin, true) => "k",
        }
    }
}

impl PartialEq for TempUnit {
    fn eq(&self, other: &TempUnit) -> (r: bool) {
        self.scale == other.scale
    }
}

impl vstd::std_specs::cmp::PartialEqSpecImpl for TempUnit {
    open spec fn obeys_eq_spec() -> bool {
        true
    }

    open spec fn eq_spec(&self, other: &TempUnit) -> bool {
        self.scale == other.scale
    }
}

} // verus!
