use vstd::prelude::*;
use crate::text::{contains, str_contains};

verus! {

/// The state a service lookup reports for a service.
#[derive(Clone, Copy, Debug, PartialEq, Eq, Structural)]
pub enum ServiceState {
    Running,
    Stopped,
    Unknown,
}

/// The state a line of a service lookup reports: running when it says
/// "(Running)", else stopped when it says "(Stopped)".
pub fn service_state(line: &str) -> (r: ServiceState)
    ensures
        r == (if contains(line@, "(Running)"@) {
            ServiceState::Running
        } else if contains(line@, "(Stopped)"@) {
            ServiceState::Stopped
        } else {
            ServiceState::Unknown
        }),
{
    if str_contains(line, "(Running)") {
        ServiceState::Running
    } else if str_contains(line, "(Stopped)") {
        ServiceState::Stopped
    } else {
        ServiceState::Unknown
    }
}

} // verus!
