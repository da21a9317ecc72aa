//! File i/o across volumes.
//!
//! A logical file is stored as an ordered sequence of volume files of a
//! bounded size. This crate holds the verified logic: the open options and
//! the flags each volume is opened with, the names of the volumes, and a
//! controller that maps logical offsets onto volumes and decides, step by
//! step, which volume a read, a write or a seek acts on.
use vstd::prelude::*;

pub mod controller;
pub mod naming;
pub mod offsets;
pub mod opening;
pub mod options;
pub mod proofs;

pub use controller::{SeekAction, SeekPos, SplitState, Step, VolumeState};
pub use naming::{decimal_bytes, Filenames};
pub use offsets::{safe_add, SplitError};
pub use opening::{
    truncate_first, truncate_step, OpenAction, OpenPlan, RemoveOutcome, TruncateAction,
};
pub use options::{OpenOptions, VolumeFlags};

verus! {

} // verus!
