use vstd::prelude::*;

verus! {

/// The push client was asked for before it was set up, or set up twice.
#[derive(Debug, Clone, Copy)]
pub struct ClientInitErr;

impl ClientInitErr {
    /// The error's message.
    pub fn message(&self) -> (s: &'static str)
        ensures
            s@ == "Client was not initialized yet"@,
    {
        "Client was not initialized yet"
    }
}

} // verus!
