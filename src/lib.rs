//! A main render pass: attachment resolution, camera enumeration, and
//! validated replay of per-entity draw commands.

use vstd::prelude::*;

pub mod draw;
pub mod draw_state;
pub mod main_pass_node;
pub mod replay;
pub mod resource;

verus! {

} // verus!
