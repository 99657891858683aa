//! Extraction of DMA request numbers and interrupt numbers from the headers of
//! the HPMicro SDK, and their attachment to the peripherals of a chip.
//!
//! The library works on text and plain values. It says where a header lies
//! below the root of the SDK ([`locator`]); the caller reads the file and
//! hands its text over. A header is searched with a regular expression
//! ([`pattern`]), and what is found is decoded to a table of names and numbers
//! ([`definitions`], [`table`]). The tables of the two kinds of header are
//! used in [`dma`] and [`interrupts`], which also attach what a chip's cores
//! hold to the cores' peripherals ([`chip`]).
//!
//! All of this is verified, but for the search with the regular expression:
//! the contracts speak of its result by name and claim nothing of what it
//! holds.

pub mod chip;
pub mod definitions;
pub mod dma;
pub mod error;
pub mod header;
pub mod interrupts;
pub mod locator;
pub mod number;
pub mod pattern;
pub mod table;
pub mod text;
