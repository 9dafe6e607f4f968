//! The options of the capture program.

use vstd::prelude::*;

verus! {

/// The options of the capture program, as given on the command line.
#[derive(Debug)]
pub struct Args {
    /// Print the version and exit.
    pub show_version: bool,
    /// Print the features and exit.
    pub features: bool,
    /// The capture device.
    pub device: String,
    /// Do not forward a frame that equals the one before.
    pub drop_frames: bool,
    /// Exit when the parent process dies.
    pub exit_on_parent_death: bool,
}

} // verus!
