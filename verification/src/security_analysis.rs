//! Fixed findings of the network module's security review.

use vstd::prelude::*;

verus! {

/// Priority levels as seen by the security review.
#[derive(Debug, Clone, Copy, PartialEq, Eq, Structural)]
pub enum MessagePriority {
    /// High priority
    High,
    /// Normal priority
    Normal,
    /// Low priority
    Low,
}

/// Produces the review's checklists.
pub struct SecurityAnalyzer;

impl SecurityAnalyzer {
    /// Operations that must run in constant time.
    pub fn check_constant_time_ops() -> (r: Vec<String>)
        ensures
            r@.len() == 3,
            r@[0]@ == "NetworkAddress creation should be constant time"@,
            r@[1]@ == "Message priority assignment should be constant time"@,
            r@[2]@ == "Metrics update should be constant time"@,
    {
        let mut r: Vec<String> = Vec::new();
        r.push(String::from_str("NetworkAddress creation should be constant time"));
        r.push(String::from_str("Message priority assignment should be constant time"));
        r.push(String::from_str("Metrics update should be constant time"));
        r
    }

    /// Memory-safety expectations.
    pub fn check_memory_safety() -> (r: Vec<String>)
        ensures
            r@.len() == 3,
            r@[0]@ == "NetworkAddress should not leak IP information"@,
            r@[1]@ == "Priority enum should have no memory issues"@,
            r@[2]@ == "Metrics struct should properly manage memory"@,
    {
        let mut r: Vec<String> = Vec::new();
        r.push(String::from_str("NetworkAddress should not leak IP information"));
        r.push(String::from_str("Priority enum should have no memory issues"));
        r.push(String::from_str("Metrics struct should properly manage memory"));
        r
    }

    /// Side-channel risks.
    pub fn analyze_side_channels() -> (r: Vec<String>)
        ensures
            r@.len() == 2,
            r@[0]@ == "IP address formatting could leak timing information"@,
            r@[1]@ == "Port number handling should be timing-attack resistant"@,
    {
        let mut r: Vec<String> = Vec::new();
        r.push(String::from_str("IP address formatting could leak timing information"));
        r.push(String::from_str("Port number handling should be timing-attack resistant"));
        r
    }
}

} // verus!
