pub mod linux;
pub mod macos;
pub mod windows;

use vstd::prelude::*;

verus! {

/// What is known of a running process.
#[derive(Clone, Debug)]
pub struct ProcessData {
    pub pid: String,
    pub name: String,
    pub path: String,
    pub parent: String,
    pub cpu: String,
    pub mem_bytes: u64,
    pub owner: String,
    pub cmd_line: String,
}

/// What is known of the process listening on a TCP port.
#[derive(Clone, Debug)]
pub struct PortData {
    pub pid: String,
    pub name: String,
    pub address: String,
    pub parent: String,
    pub cmd_line: String,
}

} // verus!
