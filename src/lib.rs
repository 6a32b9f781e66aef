//! Live game-to-frame-rate profiles and foreground game detection.
//!
//! The crate keeps a mapping from game package names to target frame rates,
//! republished as a whole by a background updater, and answers which
//! configured game (if any) is in the foreground, given the text that the
//! window manager's introspection command printed.
use vstd::prelude::*;

pub mod config;
pub mod foreground;
pub mod game_list;
pub mod text;
pub mod updater;

verus! {

/// A target frame rate.
pub type Fps = u32;

} // verus!
