//! A small embedded controller core: a debounced button press classifier and
//! a time-of-day light scheduler, both written as state machines over plain
//! values so that their behaviour can be stated and verified. Hardware pins
//! and the background loop live outside: they feed sampled levels and clock
//! readings in and carry the decided actions out. The one outside call the
//! library makes itself is reading the wall clock.

pub mod button;
pub mod html;
pub mod light;
pub mod parse;
