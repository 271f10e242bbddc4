//! The authoritative simulation of a downhill ski race run ahead of an
//! avalanche: a streaming track generator, the players' kinematics and
//! lifecycle, the race model with its tick, and replication of the model to
//! clients by differences. Lengths are fixed-point integers, a thousand to a
//! world unit; times are milliseconds.
pub mod geom;
pub mod track;
pub mod random;
pub mod trackgen;
pub mod skin;
pub mod player;
pub mod scores;
pub mod roster;
pub mod model;
pub mod diff;
pub mod net;
pub mod lobby;
pub mod physics;
