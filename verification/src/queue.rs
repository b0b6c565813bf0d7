use vstd::prelude::*;

verus! {

/// The transfer queue: an unbounded FIFO of already-encoded frames, the one
/// hand-off point between submission handling and the connection writer.
///
/// It is backed by a crossbeam channel whose two ends it owns, so the
/// channel can never report disconnection.
#[verifier::external_body]
pub struct TransferQueue {
    sender: crossbeam_channel::Sender<Vec<u8>>,
    receiver: crossbeam_channel::Receiver<Vec<u8>>,
}

/// The frames the queue holds, oldest first.
pub uninterp spec fn queue_frames(q: TransferQueue) -> Seq<Seq<u8>>;

impl TransferQueue {
    /// Relies on crossbeam_channel's `unbounded`: a fresh channel holds no
    /// messages (its `len` is 0).
    #[verifier::external_body]
    pub fn new() -> (q: TransferQueue)
        ensures
            queue_frames(q) == Seq::<Seq<u8>>::empty(),
    {
        let (sender, receiver) = crossbeam_channel::unbounded();
        TransferQueue { sender, receiver }
    }

    /// Relies on crossbeam_channel's `Sender::send`: on a channel that is
    /// not disconnected it appends the message and returns `Ok`; this queue
    /// owns its receiver, so the channel is never disconnected.
    #[verifier::external_body]
    pub fn enqueue(&mut self, frame: Vec<u8>)
        ensures
            queue_frames(*final(self)) == queue_frames(*old(self)).push(frame@),
    {
        let _ = self.sender.send(frame);
    }

    /// Relies on crossbeam_channel's `Receiver::recv`: messages come out in
    /// the order they were sent, and with the sender alive and a message
    /// present the call returns it; this queue owns its sender.
    #[verifier::external_body]
    pub fn dequeue(&mut self) -> (r: Vec<u8>)
        requires
            queue_frames(*old(self)).len() > 0,
        ensures
            r@ == queue_frames(*old(self))[0],
            queue_frames(*final(self)) == queue_frames(*old(self)).skip(1),
    {
        match self.receiver.recv() {
            Ok(frame) => frame,
            Err(_) => Vec::new(),
        }
    }

    /// Relies on crossbeam_channel's `Receiver::len`: the number of messages
    /// waiting in the channel.
    #[verifier::external_body]
    pub fn len(&self) -> (n: usize)
        ensures
            n == queue_frames(*self).len(),
    {
        self.receiver.len()
    }
}

/// Dequeues every frame the queue holds: they come out exactly as they went
/// in, oldest first, data and heartbeat frames alike, in their enqueue
/// order.
pub fn dequeue_all(q: &mut TransferQueue) -> (out: Vec<Vec<u8>>)
    ensures
        out@.map_values(|f: Vec<u8>| f@) == queue_frames(*old(q)),
        queue_frames(*final(q)) == Seq::<Seq<u8>>::empty(),
{
    let mut out: Vec<Vec<u8>> = Vec::new();
    while q.len() > 0
        invariant
            queue_frames(*old(q)) == out@.map_values(|f: Vec<u8>| f@) + queue_frames(*q),
        decreases queue_frames(*q).len(),
    {
        let ghost pending = queue_frames(*q);
        let frame = q.dequeue();
        out.push(frame);
        proof {
            assert(pending =~= seq![pending[0]] + pending.skip(1));
            assert(out@.map_values(|f: Vec<u8>| f@) =~= out@.drop_last().map_values(
                |f: Vec<u8>| f@,
            ).push(pending[0]));
            assert(out@.map_values(|f: Vec<u8>| f@) + queue_frames(*q) =~= out@.drop_last()
                .map_values(|f: Vec<u8>| f@) + pending);
        }
    }
    assert(out@.map_values(|f: Vec<u8>| f@) =~= out@.map_values(|f: Vec<u8>| f@) + queue_frames(
        *q,
    ));
    out
}

/// FIFO order: with frames `e1 .. eN` enqueued in that order and nothing
/// else, the queue holds exactly that sequence, so by `dequeue`'s contract
/// the `k`-th dequeue returns `e(k+1)`: delivery follows enqueue order.
pub proof fn lemma_fifo_order(frames: Seq<Seq<u8>>, k: int)
    requires
        0 <= k < frames.len(),
    ensures
        frames.skip(k)[0] == frames[k],
        frames.skip(k).skip(1) == frames.skip(k + 1),
{
    assert(frames.skip(k)[0] == frames[k]);
    assert(frames.skip(k).skip(1) =~= frames.skip(k + 1));
}

} // verus!
