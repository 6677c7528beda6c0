//! Session-level decisions of the supervisor.
use vstd::prelude::*;

verus! {

/// The session's result is exactly the orchestrator's own exit status —
/// the supervisor never synthesizes a different one.  When the
/// orchestrator died without a status (killed by a signal), the session
/// fails with status 1 rather than inventing a success.
pub fn session_exit_code(orchestrator_code: Option<i32>) -> (r: i32)
    ensures
        orchestrator_code matches Option::Some(c) ==> r == c,
        orchestrator_code is None ==> r == 1,
{
    match orchestrator_code {
        Option::Some(c) => c,
        Option::None => 1,
    }
}

} // verus!
