//! Dendritic crystal growth on a hexagonal lattice, with a recorder that can
//! replay a run from a compact shareable string.
//!
//! Every real quantity is carried as the bit pattern of an IEEE-754 binary64
//! number in a `u64`. Comparisons are decided on the bits; arithmetic is done
//! by a software implementation of the format, so a run gives the same bits
//! on every machine.
//!
//! * [`number`] reads bit patterns: which are frozen, which are the same
//!   number.
//! * [`arith`] adds, subtracts, multiplies and divides them.
//! * [`hex`] names the six neighbours of a cell.
//! * [`random`] is the seeded ring of uniform numbers.
//! * [`lattice`] is the padded lattice and the marking of receptive cells.
//! * [`model`] tells what the engine does as functions on values, and
//!   [`growth`], [`border`], [`seeding`] and [`replay`] prove what follows
//!   from it: flags are never taken away, the ring holds the background
//!   vapour after every step, the order of seeding leaves no trace, and a
//!   playback follows the run it was tracked from.
//! * [`sim`] is the engine.
//! * [`timeline`] records the changes of one parameter.
//! * [`sim_history`] tracks a run, plays it back, and writes and reads its
//!   string, through the three stages of [`codec`].

pub mod number;
pub mod arith;
pub mod hex;
pub mod random;
pub mod lattice;
pub mod model;
pub mod growth;
pub mod border;
pub mod seeding;
pub mod replay;
pub mod sim;
pub mod timeline;
pub mod codec;
pub mod sim_history;
