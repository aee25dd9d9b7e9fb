//! Bookkeeping core of a Moreau-Jean time-stepping scheme: numbering the
//! degrees of freedom of an island, sizing and laying out the constraint
//! Jacobian buffer, and sequencing the phases of one simulation tick.

pub mod body;
pub mod constraint;
pub mod island;
pub mod jacobian;
pub mod joints;
pub mod solver;
pub mod sweep;
