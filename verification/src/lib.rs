//! Suffix arrays, the Burrows-Wheeler transform and its inverse, and
//! longest-common-prefix arrays, for texts of bytes, of 16-bit symbols and of
//! integers, with 32-bit or 64-bit indices.
//!
//! The algorithms are in [`sais32`], [`sais16`] and [`sais64`], one module
//! for each pairing of symbols and indices; each of them has a submodule
//! `parallel` that takes a degree of parallelism, and the first two have
//! contexts that keep work arrays between calls. What the sizes of buffers
//! must be is decided by [`common`], and how long an array of auxiliary
//! indices is by [`aux_index`]. All failures are values of
//! [`errors::Error`].
//!
//! Every function carries a contract over a mathematical model of its
//! arguments, and every contract is machine-checked. The models are:
//!
//! - a text as the sequence of its symbols' codes ([`symbol`]), ordered
//!   lexicographically ([`order`]);
//! - the suffix array of a text ([`suffix_array`]), which every text has,
//!   and of which it has one only ([`rank`]);
//! - the transform of a text, its primary index and its auxiliary indices
//!   ([`bwt`]), from which the text can be read back, and which are the only
//!   thing that can be read back ([`round_trip`]);
//! - the frequency table of a text ([`histogram`]);
//! - the prefix arrays of a text under its suffix array ([`lcp`]).
//!
//! The generic algorithms behind the three modules are [`doubling`] (suffix
//! sorting), [`bwt`], [`unbwt`] and [`lcp`]; [`count`] and [`index`] hold
//! what they share.

pub mod aux_index;
pub mod bwt;
pub mod common;
pub mod count;
pub mod doubling;
pub mod errors;
pub mod histogram;
pub mod index;
pub mod lcp;
pub mod order;
pub mod rank;
pub mod round_trip;
pub mod sais16;
pub mod sais32;
pub mod sais64;
pub mod suffix_array;
pub mod symbol;
pub mod unbwt;
