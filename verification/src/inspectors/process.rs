use vstd::prelude::*;
use vstd::string::{StrSliceExecFns, StringExecFns};
use crate::platform::ProcessData;

verus! {

/// `text`, or `placeholder` when it is empty.
pub open spec fn or_placeholder_spec(text: Seq<char>, placeholder: Seq<char>) -> Seq<char> {
    if text.len() == 0 { placeholder } else { text }
}

/// A field as a report shows it: its text, or `placeholder` when it is empty.
pub fn or_placeholder(text: &str, placeholder: &str) -> (r: String)
    ensures
        r@ == or_placeholder_spec(text@, placeholder@),
{
    if text.unicode_len() == 0 { String::from_str(placeholder) } else { String::from_str(text) }
}

/// The CPU time as a report shows it: "(not available)" when the lookup gave
/// nothing or a bare unit.
pub open spec fn cpu_text_spec(cpu: Seq<char>) -> Seq<char> {
    if cpu.len() == 0 || cpu == "s"@ { "(not available)"@ } else { cpu }
}

impl ProcessData {
    /// The working set in whole mebibytes, rounded down.
    pub fn memory_mb(&self) -> (r: u64)
        ensures
            r == self.mem_bytes / 1024 / 1024,
    {
        self.mem_bytes / 1024 / 1024
    }

    /// The CPU time as the report shows it.
    pub fn cpu_text(&self) -> (r: String)
        ensures
            r@ == cpu_text_spec(self.cpu@),
    {
        if self.cpu.as_str().unicode_len() == 0 || self.cpu == String::from_str("s") {
            String::from_str("(not available)")
        } else {
            self.cpu.clone()
        }
    }
}

} // verus!
