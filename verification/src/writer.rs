use vstd::prelude::*;

verus! {

/// The connection writer's states. It starts `Connected`, after one
/// successful dial, and any write failure is terminal: there is no
/// reconnect.
#[derive(Clone, Copy, Debug, PartialEq, Eq, Structural)]
pub enum WriterState {
    Connected,
    Failed,
}

/// One step of the writer after a write attempt: the writer stays
/// `Connected` exactly when it was `Connected` and the write succeeded;
/// `Failed` is never left.
pub fn writer_step(state: WriterState, write_ok: bool) -> (next: WriterState)
    ensures
        next == WriterState::Connected <==> (state == WriterState::Connected && write_ok),
{
    match state {
        WriterState::Connected => if write_ok {
            WriterState::Connected
        } else {
            WriterState::Failed
        },
        WriterState::Failed => WriterState::Failed,
    }
}

} // verus!
