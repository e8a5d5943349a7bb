//! A Universal Machine emulator and its supporting libraries.
//!
//! The core is the emulator: `rummem` holds the segmented memory with
//! stack-disciplined identifier reuse, `rumdis` decodes 32-bit
//! instruction words, `rumrun` is the fetch-decode-execute engine, and
//! `rumload` assembles program bytes into words. `randmem` is an
//! alternative memory with randomized identifier reuse, and `rumdump`
//! renders instructions as text.
//!
//! Around the core stand `bitpack` (bit-field packing over 64-bit
//! words), `quantize` and `packing` (the packed image-block format),
//! `array2` and `codec` (a two-dimensional array and block transforms
//! over it), `sudoku` (a grid puzzle validator), `fgroups` (grouping
//! names by fingerprint), and `testing` (small warm-up utilities).

pub mod array2;
pub mod bitpack;
pub mod codec;
pub mod fgroups;
pub mod packing;
pub mod quantize;
pub mod randmem;
pub mod rumdis;
pub mod rumdump;
pub mod rumload;
pub mod rummem;
pub mod rumrun;
pub mod sudoku;
pub mod testing;
