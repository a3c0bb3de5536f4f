//! A layered feedforward network of weighted nodes, evaluated one forward pass
//! at a time.
//!
//! Every scalar of the network (bias, weight, output) is held as the 64-bit
//! pattern of an IEEE 754 double. The library owns the shape of the network,
//! the order in which values are drawn, stored and combined, and the checks on
//! its inputs; the arithmetic on the scalars themselves is supplied by the
//! caller as two functions on bit patterns.

pub mod bits;
pub mod network;
pub mod dump;
pub mod laws;

pub use bits::{accept_bias, accept_weight, ONE_BITS, SIGN_BIT, ZERO_BITS};
pub use dump::{DumpLine, Role};
pub use network::{Layer, NetError, NeuralNet, Node};
