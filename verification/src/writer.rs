//! The shard writer's decisions: what one writer task does at the top of its
//! loop, and the parameters every output capture file is opened with.

use vstd::prelude::*;

verus! {

/// What a shard writer does next.
#[derive(Clone, Copy, PartialEq, Eq, Structural, Debug)]
pub enum WriterAction {
    /// Hand the popped frame to the codec writer.
    WriteFrame,
    /// Leave the loop: input has ended and the backlog is flushed.
    Exit,
    /// Back off briefly, then poll the ring again.
    Sleep,
}

/// The decision at the top of the shard writer's loop: a popped frame is
/// written; an empty ring after termination was signalled ends the task; an
/// empty ring before that means back off and retry.
pub fn writer_step(got_frame: bool, fin: bool) -> (r: WriterAction)
    ensures
        r == (if got_frame {
            WriterAction::WriteFrame
        } else if fin {
            WriterAction::Exit
        } else {
            WriterAction::Sleep
        }),
{
    if got_frame {
        WriterAction::WriteFrame
    } else if fin {
        WriterAction::Exit
    } else {
        WriterAction::Sleep
    }
}

/// The open parameters of the `n` output capture files: every output
/// inherits the link-type and snaplen of the input, so outputs are
/// structurally identical to it.
pub fn writer_configs(datalink: i32, snaplen: i32, n: usize) -> (r: Vec<(i32, i32)>)
    ensures
        r@.len() == n,
        forall|k: int| 0 <= k < n ==> r@[k] == (datalink, snaplen),
{
    let mut out: Vec<(i32, i32)> = Vec::new();
    let mut i: usize = 0;
    while i < n
        invariant
            i <= n,
            out@.len() == i,
            forall|k: int| 0 <= k < i ==> out@[k] == (datalink, snaplen),
        decreases n - i,
    {
        out.push((datalink, snaplen));
        i = i + 1;
    }
    out
}

} // verus!
