//! The command-line surface as plain data. The outer layer parses the
//! process's arguments into these values; everything below consumes them
//! as ordinary configuration.

use vstd::prelude::*;

verus! {

/// Everything the command line decides.
#[derive(Debug)]
pub struct Args {
    /// Enable debug logging.
    pub debug: bool,
    /// What to do.
    pub cmd: Command,
}

/// The one action a run performs.
#[derive(Debug)]
pub enum Command {
    /// Scan the current network for devices.
    Scan { service_name: String },
    /// List the devices found so far.
    List,
    /// Fetch one device's information.
    Info { device_id: String },
    /// Set a device's wifi credentials.
    Wifi { device_id: String, essid: String, pwd: String },
    /// Switch a device on or off.
    Switch { device_id: String, state: SwitchState },
    /// Unlock a device for over-the-air flashing.
    Unlock { device_id: String },
    /// Flash a firmware binary over the air, served by the embedded
    /// server on the given port or fetched from an external URL.
    Flash {
        device_id: String,
        bin: Option<String>,
        httpd_port: u16,
        external_httpd_url: Option<String>,
        bin_sha256sum: Option<String>,
    },
}

/// The two switch positions.
#[derive(Debug, PartialEq, Eq, Structural, Clone, Copy)]
pub enum SwitchState {
    On,
    Off,
}

} // verus!
