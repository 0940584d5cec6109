//! Typewriter manuscript layout: line breaking of typed text tokens
//! and composition of formatted text blocks into fixed-height pages.

pub mod document;
pub mod lut;
pub mod text;
