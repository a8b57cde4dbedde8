//! The throttle that a program asks for.

use crate::interpreter::object::Command;
use vstd::prelude::*;

verus! {

/// Reads the `SetThrust` commands of a program. Clamping the throttle and
/// burning fuel are the host's part.
pub struct ThrusterSystem {}

/// The throttle of the last `SetThrust` among the first `n` commands, if there
/// is one.
pub open spec fn last_throttle(commands: Seq<Command>, n: int) -> Option<u64>
    decreases n,
{
    if n <= 0 || n > commands.len() {
        None
    } else {
        match commands[n - 1] {
            Command::SetThrust { throttle } => Some(throttle),
            _ => last_throttle(commands, n - 1),
        }
    }
}

impl ThrusterSystem {
    pub fn new() -> Self {
        ThrusterSystem {  }
    }

    /// The throttle that the commands ask for: every `SetThrust` replaces the
    /// one before it, so the last one counts.
    pub fn requested_throttle(&self, commands: &Vec<Command>) -> (throttle: Option<u64>)
        ensures
            throttle == last_throttle(commands@, commands.len() as int),
    {
        let mut throttle: Option<u64> = None;
        let mut i: usize = 0;
        while i < commands.len()
            invariant
                0 <= i <= commands.len(),
                throttle == last_throttle(commands@, i as int),
            decreases commands.len() - i,
        {
            if let Command::SetThrust { throttle: asked } = commands[i] {
                throttle = Some(asked);
            }
            i += 1;
        }
        throttle
    }
}

} // verus!
