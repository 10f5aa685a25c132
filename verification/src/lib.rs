//! A CHIP-8 virtual machine: 4KB of memory, sixteen 8-bit registers, a
//! sixteen-deep call stack, two countdown timers, a 64x32 monochrome
//! framebuffer and a sixteen-key pad, driven by an external front-end
//! one fetch-decode-execute cycle at a time.  Every instruction's effect
//! is specified against a mathematical model of the machine state and
//! verified.

pub mod decode;
pub mod draw;
pub mod keys;
pub mod laws;
pub mod machine;
pub mod model;
pub mod rng;
pub mod step;
