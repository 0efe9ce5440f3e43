//! What the user configures for one alias.
use vstd::prelude::*;

verus! {

/// One entry of the configuration file.
#[derive(Debug)]
pub struct ConfigFile {
    /// The device to talk to; the only one there is, where it is not given.
    pub device_name: Option<String>,
    /// The local directory, seen from the home directory.
    pub local_dir: String,
    /// The directory on the device.
    pub remote_dir: String,
    /// Copy hidden files too.
    pub allow_hidden: bool,
}

} // verus!
