//! One-time setup of the process-wide logging and DNS subsystems.
use vstd::prelude::*;

verus! {

/// Which one-time setups have been done.
pub struct InitState {
    pub log_done: bool,
    pub dns_done: bool,
}

/// Which setups the current caller has to perform.
#[derive(PartialEq, Eq, Structural, Clone, Copy, Debug)]
pub struct InitSteps {
    pub setup_log: bool,
    pub setup_dns: bool,
}

impl InitState {
    pub fn new() -> (r: InitState)
        ensures
            !r.log_done,
            !r.dns_done,
    {
        InitState { log_done: false, dns_done: false }
    }
}

/// Claims the setups that nobody has claimed yet: the caller performs
/// exactly the returned steps, and afterwards both are marked done, so
/// every later call returns no step.
pub fn initialize_once(state: &mut InitState) -> (r: InitSteps)
    ensures
        r.setup_log == !old(state).log_done,
        r.setup_dns == !old(state).dns_done,
        final(state).log_done,
        final(state).dns_done,
{
    let steps = InitSteps { setup_log: !state.log_done, setup_dns: !state.dns_done };
    state.log_done = true;
    state.dns_done = true;
    steps
}

} // verus!
