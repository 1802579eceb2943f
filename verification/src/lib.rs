//! A timed typing exercise: the session engine that scores keystrokes
//! against a generated task text, and the generator of that text.

pub mod text;
pub mod corpus;
pub mod generator;
pub mod session;
pub mod input;
pub mod display;
pub mod laws;
