//! The rules and data handling of a tabletop deployment helper: reading army
//! lists and datasheet base sizes, the turn and phase sequence, the game
//! timeline, and what the annotation tools do with a click.
use vstd::prelude::*;

pub mod text;
pub mod assoc;
pub mod numeral;
pub mod army_list;
pub mod base_lookup;
pub mod import;
pub mod terrain;
pub mod phase;
pub mod turn;
pub mod units;
pub mod timeline;
pub mod tools;
pub mod deployment;
pub mod rounding;

verus! {

} // verus!
