use vstd::prelude::*;
use super::{PortData, ProcessData};

verus! {

/// Services matching a query; this platform has no service lookup yet
/// (it would ask systemd or init), so none are found.
pub fn find_services(_query: &str) -> (r: Vec<String>)
    ensures
        r@.len() == 0,
{
    Vec::new()
}

/// A process by name or PID; this platform has no process lookup yet
/// (it would read /proc), so none is found.
pub fn get_process_info(_query: &str) -> (r: Option<ProcessData>)
    ensures
        r is None,
{
    None
}

/// The listener on a TCP port; this platform has no port lookup yet
/// (it would use netstat or ss), so none is found.
pub fn get_port_info(_port: u16) -> (r: Option<PortData>)
    ensures
        r is None,
{
    None
}

} // verus!
