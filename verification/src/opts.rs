//! The configuration record a run of the patcher is driven by. An outside
//! collaborator (the command line) fills it in; the core only reads it.

use vstd::prelude::*;

verus! {

/// Configuration of one patching run. `dylib_path` holds the UTF-8 bytes of
/// the library path to insert; the patcher compares and writes it as raw
/// bytes, so it is kept as bytes here.
#[derive(Debug, Clone)]
pub struct Opts {
    pub dylib_path: Vec<u8>,
    pub binary_path: String,
    pub output_path: String,
    pub weak: bool,
    pub overwrite: bool,
    pub strip_codesign: bool,
    pub all_yes: bool,
}

impl Opts {
    pub fn default() -> (r: Opts)
        ensures
            r.dylib_path@.len() == 0,
            r.binary_path@.len() == 0,
            r.output_path@.len() == 0,
            !r.weak,
            !r.overwrite,
            !r.strip_codesign,
            !r.all_yes,
    {
        Opts {
            dylib_path: Vec::new(),
            binary_path: String::new(),
            output_path: String::new(),
            weak: false,
            overwrite: false,
            strip_codesign: false,
            all_yes: false,
        }
    }
}

} // verus!
