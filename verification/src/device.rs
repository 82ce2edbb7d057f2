//! Decisions of the device bring-up pipeline: whether a freshly
//! attached USB device is prepared at all, and the exact argument lists
//! handed to the debug-bridge CLI that does the work.

use crate::num::{dec_digits, push_dec};
use crate::text::str_chars;
use vstd::prelude::*;

verus! {

/// A serial identifying one attached device.
pub type Serial = Vec<char>;

/// Watches attached devices and prepares each one for the broker.
pub struct DeviceHandler {}

/// What to do with one attached device.
#[derive(Clone, Copy, Debug, PartialEq, Eq, Structural)]
pub enum DevicePlan {
    /// No debug-bridge interface: leave the device alone.
    Skip,
    /// A debug-bridge device without a serial number cannot be prepared.
    NoSerial,
    /// Reverse-forward the port, install the helper when it is missing,
    /// and launch the app.
    BringUp { install_helper: bool },
}

impl DeviceHandler {
    /// The plan for a device: `adb_interfaces` counts its debug-bridge
    /// interfaces, `has_serial` whether it reports a serial number,
    /// `installed` whether the helper package is already on it.
    pub fn plan(adb_interfaces: usize, has_serial: bool, installed: bool) -> (r: DevicePlan)
        ensures
            r == if adb_interfaces == 0 {
                DevicePlan::Skip
            } else if !has_serial {
                DevicePlan::NoSerial
            } else {
                DevicePlan::BringUp { install_helper: !installed }
            },
    {
        if adb_interfaces == 0 {
            DevicePlan::Skip
        } else if !has_serial {
            DevicePlan::NoSerial
        } else {
            DevicePlan::BringUp { install_helper: !installed }
        }
    }

    /// The argument list that reverse-forwards the broker's port:
    /// `reverse tcp:<remote> tcp:<local>`.
    pub fn reverse_args(local: u16, remote: u16) -> (r: Vec<Vec<char>>)
        ensures
            r@.len() == 3,
            r@[0]@ == "reverse"@,
            r@[1]@ == "tcp:"@ + dec_digits(remote as int),
            r@[2]@ == "tcp:"@ + dec_digits(local as int),
    {
        let mut remote_arg = str_chars("tcp:");
        push_dec(remote as u32, &mut remote_arg);
        let mut local_arg = str_chars("tcp:");
        push_dec(local as u32, &mut local_arg);
        let mut r: Vec<Vec<char>> = Vec::new();
        r.push(str_chars("reverse"));
        r.push(remote_arg);
        r.push(local_arg);
        r
    }

    /// The activity the launcher starts:
    /// `<package>/<package>.MainActivity`.
    pub fn activity_arg() -> (r: Vec<char>)
        ensures
            r@ == "com.z3phyrl.zeitop"@ + "/"@ + "com.z3phyrl.zeitop"@ + ".MainActivity"@,
    {
        let mut r = str_chars("com.z3phyrl.zeitop");
        let slash = str_chars("/");
        r.extend_from_slice(slash.as_slice());
        let pack = str_chars("com.z3phyrl.zeitop");
        r.extend_from_slice(pack.as_slice());
        let main = str_chars(".MainActivity");
        r.extend_from_slice(main.as_slice());
        r
    }
}

} // verus!
