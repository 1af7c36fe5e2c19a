pub mod accidental;
pub mod frac;
pub mod duration;
pub mod key;
pub mod note;
pub mod parse;
