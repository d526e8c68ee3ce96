//! A CHIP-8 virtual machine: the display, the keypad, the instruction set
//! and the timers, each stated over a mathematical model and verified.

pub mod font;
pub mod graphics;
pub mod keypad;
pub mod machine;
pub mod platform;
