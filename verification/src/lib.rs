//! Endian-aware scalar codec and padding/window combinators.
//!
//! Two independent subsystems:
//! - [`endian`]: allocation-free conversion between byte slices and
//!   fixed-width integers under an explicit byte order, and the reverse
//!   direction as a lazy byte-producing sequence.
//! - [`pad`]: lazy sequences that back-fill positions of a bounded index
//!   window with a filler value wherever a finite source runs dry.

pub mod endian;
pub mod pad;
