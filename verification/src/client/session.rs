//! A client: the programs that it runs and how it gets the rights of root.

use vstd::prelude::*;

use crate::client::attach;
use crate::client::attach::{BatchResult, UsbIp};
use crate::client::privilege;
use crate::client::privilege::{PrivilegeMode, PrivilegedRun};
use crate::client::usbip;
use crate::client::usbip::RemoteDevice;
use crate::failure;
use crate::failure::Failure;
use crate::process;
use crate::process::RunOutcome;
use crate::text;

verus! {

/// A client of USB/IP servers.
#[derive(Debug)]
pub struct Client {
    pub usb: UsbIp,
    pub mode: PrivilegeMode,
}

impl Clone for Client {
    fn clone(&self) -> (r: Client)
        ensures
            r.usb.usbip_bin@ == self.usb.usbip_bin@,
            r.usb.modprobe_bin@ == self.usb.modprobe_bin@,
            r.mode == self.mode,
    {
        Client { usb: self.usb.clone(), mode: self.mode }
    }
}

impl Client {
    /// A client that gets its rights in the given way and runs the programs
    /// that are found among the files that are present.
    pub fn new(mode: PrivilegeMode, present: &Vec<String>) -> (r: Client)
        ensures
            r.mode == mode,
            r.usb.usbip_bin@ == attach::path_or(
                privilege::first_present(attach::usbip_places(), text::texts(present@)),
                "usbip"@,
            ),
            r.usb.modprobe_bin@ == attach::path_or(
                privilege::first_present(attach::modprobe_places(), text::texts(present@)),
                "modprobe"@,
            ),
    {
        Client { usb: UsbIp::from_present(present), mode }
    }

    /// A privileged run of this client that has not been started yet.
    pub fn start_run(&self, root: bool) -> (r: PrivilegedRun)
        ensures
            r.launch == privilege::first_launch(self.mode, root),
            r.earlier is None,
    {
        PrivilegedRun::start(self.mode, root)
    }

    /// The devices that a run of `usbip list -r` offers, or what went wrong.
    pub fn list_remote_devices(&self, outcome: &RunOutcome) -> (r: Result<
        Vec<RemoteDevice>,
        Failure,
    >)
        ensures
            match (r, *outcome) {
                (Ok(devices), RunOutcome::Finished { success, stdout, .. }) => success
                    && usbip::device_views(devices@) == usbip::offered_devices(
                    process::utf8_lossy(stdout@),
                ),
                (Err(e), RunOutcome::Finished { success, stderr, .. }) => !success && e@
                    == failure::plain_of(
                    "usbip list -r failed: "@ + process::utf8_lossy(stderr@),
                ),
                (Err(e), RunOutcome::NotStarted(why)) => e@ == failure::wrapped_of(
                    "usbip list -r"@,
                    why@,
                ),
                (Ok(_), RunOutcome::NotStarted(_)) => false,
            },
    {
        self.usb.list_remote_devices(outcome)
    }

    /// What a run of the script says of the devices, or why it failed.
    pub fn attach_batch(&self, host: &str, busids: &Vec<String>, outcome: &RunOutcome) -> (r: Result<
        BatchResult,
        Failure,
    >)
        ensures
            match r {
                Ok(b) => attach::batch_failure(self.mode, host@, *outcome) is None && b.verdicts@
                    == attach::verdicts_of(process::printed(*outcome), text::texts(busids@))
                    && b.complaint@ == attach::complaint(process::complained(*outcome)),
                Err(e) => attach::batch_failure(self.mode, host@, *outcome) == Some(e@),
            },
    {
        self.usb.attach_batch(self.mode, host, busids, outcome)
    }

    /// The log lines for the devices that were to be attached, or why the run
    /// failed.
    pub fn attach_many(&self, host: &str, busids: &Vec<String>, outcome: &RunOutcome) -> (r: Result<
        Vec<String>,
        Failure,
    >)
        ensures
            match r {
                Ok(lines) => attach::batch_failure(self.mode, host@, *outcome) is None
                    && text::texts(lines@) == attach::attach_lines(
                    host@,
                    text::texts(busids@),
                    attach::verdicts_of(process::printed(*outcome), text::texts(busids@)),
                    attach::complaint(process::complained(*outcome)),
                ),
                Err(e) => attach::batch_failure(self.mode, host@, *outcome) == Some(e@),
            },
    {
        self.usb.attach_many(self.mode, host, busids, outcome)
    }
}

} // verus!
