//! Two small engines around exact text handling: a temperature converter
//! (parse a value with an optional unit suffix, convert between Celsius,
//! Fahrenheit and Kelvin) and a number-guessing game (parse a bounded
//! integer, compare it to a secret, track attempts).
//!
//! Temperature values are held as exact rationals, so the linear scale
//! conversions and their round trips are exact rather than approximate.

pub mod guess;
pub mod rational;
pub mod temperature;
pub mod text;

pub use guess::Feedback;
pub use guess::GameState;
pub use guess::GuessError;
pub use guess::GuessOutcome;
pub use rational::Rat;
pub use temperature::ParseError;
pub use temperature::TempUnit;
pub use temperature::Temperature;
