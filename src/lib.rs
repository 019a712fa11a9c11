//! Conversion of temperatures between Celsius, Fahrenheit and Kelvin, with
//! exact decimal arithmetic.

pub mod decimal;

pub mod unit;
pub mod temp;
