use vstd::prelude::*;

verus! {

/// What the panel knows of the background service.
#[derive(Debug, PartialEq, Eq, Structural, Copy, Clone)]
pub enum ServiceStatus {
    Running,
    Error,
    Stopped,
    Starting,
}

} // verus!
