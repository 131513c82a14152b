//! Defaults of a playback session.

use vstd::prelude::*;
use vstd::string::StringExecFns;

verus! {

/// Directory the sample material is looked up under.
pub const ROOT_DIR: &'static str = "/home/klaudiusz/Desktop/Projects/rust/terminal_player/";

/// Directory of the samples, below `ROOT_DIR`.
pub const SAMPLE_DIR: &'static str = "samples/";

/// Name of the sample file.
pub const SAMPLE_FILE: &'static str = "sample.mp4";

/// Output width in characters when the command line names none.
pub const DEF_WIDTH: usize = 72;

/// Slots of the frame queue: ten seconds at thirty frames per second.
pub const FRAME_BACKLOG: usize = 300;

/// The text of the path of the sample file.
pub open spec fn sample_mp4_path() -> Seq<char> {
    ROOT_DIR@ + SAMPLE_DIR@ + SAMPLE_FILE@
}

/// Path of the sample file: `ROOT_DIR`, `SAMPLE_DIR` and `SAMPLE_FILE` joined.
pub fn get_sample_mp4() -> (path: String)
    ensures
        path@ == sample_mp4_path(),
{
    String::from_str(ROOT_DIR).concat(SAMPLE_DIR).concat(SAMPLE_FILE)
}

} // verus!
