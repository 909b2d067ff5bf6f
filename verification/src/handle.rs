//! The handle the library hands out once initialisation succeeds.

use vstd::prelude::*;
use vstd::string::*;

use crate::detect::DetectionResult;

verus! {

/// Opaque handle, returned by initialisation and passed back to the other
/// operations. Its holder must not inspect or change it.
pub struct GuardHandle {
    initialized: bool,
}

impl GuardHandle {
    /// The handle was produced by a successful initialisation.
    pub closed spec fn is_initialized(&self) -> bool {
        self.initialized
    }
}

/// The message reported when detection stops initialisation.
pub open spec fn detection_failure_message(reason: Seq<char>) -> Seq<char> {
    "Detection failed: "@ + reason
}

/// Initialisation, given the result of the threat detection: a handle when
/// nothing was detected, else the message to report.
pub fn init_outcome(detection: &DetectionResult) -> (r: Result<GuardHandle, String>)
    ensures
        match r {
            Ok(handle) => !detection.detected && handle.is_initialized(),
            Err(message) => detection.detected && message@ == detection_failure_message(
                detection.reason@,
            ),
        },
{
    if detection.detected {
        let mut message = String::from_str("Detection failed: ");
        message.append(detection.reason.as_str());
        return Err(message);
    }
    Ok(GuardHandle { initialized: true })
}

} // verus!
