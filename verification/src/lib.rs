//! Shared wire-level logic of the Stormlight protocol.
#![allow(unused_imports)]

use vstd::prelude::*;

pub mod bytes;
pub mod cast;
pub mod connection;
pub mod frame;
pub mod death;
pub mod ecs;
pub mod identity;
pub mod impact;
pub mod movement;
pub mod orders;
pub mod pools;
pub mod quantize;
pub mod progression;
pub mod roster;
pub mod slots;
pub mod talents;
pub mod tasks;
pub mod ui;
pub mod vitals;
pub mod wire;
