pub mod accum;
pub mod counts;
pub mod device_hash;
pub mod event;
pub mod inventory;
pub mod strutil;
pub mod timestamp;

use vstd::prelude::*;

verus! {

/// Paths to the two input files of a run: the fault-management event log
/// (required) and the hardware-inventory snapshot (optional).
pub struct Config {
    pub fmlog_path: String,
    pub hwgrok_path: Option<String>,
}

impl Config {
    pub fn new(fmlog_path: String, hwgrok_path: Option<String>) -> (c: Config)
        ensures
            c.fmlog_path == fmlog_path,
            c.hwgrok_path == hwgrok_path,
    {
        Config { fmlog_path, hwgrok_path }
    }
}

} // verus!
