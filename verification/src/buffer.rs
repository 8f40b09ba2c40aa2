//! A bounded consumer-side buffer of decoded wire commands: commands are
//! submitted until the buffer is full and drained in bounded batches.

use vstd::prelude::*;

use crate::codec::{Command, CommandView};

verus! {

/// The default batch bound.
pub open spec fn default_sub_buffer() -> nat {
    256
}

/// The views of buffered commands, in order.
pub open spec fn queue_view(q: Seq<Command>) -> Seq<CommandView> {
    q.map_values(|c: Command| c@)
}

/// A bounded queue of commands with a terminate latch. It accepts up to
/// twice the batch bound and hands commands out in batches of at most the
/// batch bound — or everything at once after a terminate.
pub struct Buffer {
    queue: Vec<Command>,
    terminate_received: bool,
    max_sub_buffer: usize,
    max_buffer: usize,
}

impl Buffer {
    /// The buffered commands, in order.
    pub closed spec fn view(&self) -> Seq<CommandView> {
        queue_view(self.queue@)
    }

    /// Whether a terminate has been seen.
    pub closed spec fn terminated(&self) -> bool {
        self.terminate_received
    }

    /// The batch bound.
    pub closed spec fn sub_bound(&self) -> nat {
        self.max_sub_buffer as nat
    }

    /// The queue bound.
    pub closed spec fn bound(&self) -> nat {
        self.max_buffer as nat
    }

    /// An empty buffer; the batch bound defaults to 256 and the queue
    /// bound is twice the batch bound, saturated.
    pub fn new(max_sub_buffer: Option<usize>) -> (r: Buffer)
        ensures
            r.view() == Seq::<CommandView>::empty(),
            !r.terminated(),
            r.sub_bound() == match max_sub_buffer {
                Some(v) => v as nat,
                None => default_sub_buffer(),
            },
            r.bound() == if r.sub_bound() <= usize::MAX as nat / 2 {
                r.sub_bound() * 2
            } else {
                usize::MAX as nat
            },
    {
        let sub = match max_sub_buffer {
            Some(v) => v,
            None => 256,
        };
        let max = if sub <= usize::MAX / 2 {
            sub * 2
        } else {
            usize::MAX
        };
        let r = Buffer {
            queue: Vec::new(),
            terminate_received: false,
            max_sub_buffer: sub,
            max_buffer: max,
        };
        proof {
            assert(r.view() =~= Seq::<CommandView>::empty());
        }
        r
    }

    /// The queue bound.
    pub fn max_buffer(&self) -> (r: usize)
        ensures
            r as nat == self.bound(),
    {
        self.max_buffer
    }

    /// Whether the target has announced the end of its stream.
    pub fn should_terminate(&self) -> (r: bool)
        ensures
            r == self.terminated(),
    {
        self.terminate_received
    }

    /// Accepts one command while the queue is below its bound; a
    /// terminate command also sets the latch. Returns whether the command
    /// was taken.
    pub fn submit(&mut self, cmd: Command) -> (r: bool)
        ensures
            r == (old(self)@.len() < old(self).bound()),
            final(self).bound() == old(self).bound(),
            final(self).sub_bound() == old(self).sub_bound(),
            if old(self)@.len() < old(self).bound() {
                final(self)@ == old(self)@.push(cmd@) && final(self).terminated() == (
                old(self).terminated() || cmd@ is Terminate)
            } else {
                final(self)@ == old(self)@ && final(self).terminated() == old(self).terminated()
            },
    {
        if self.queue.len() < self.max_buffer {
            if cmd.is_terminate() {
                self.terminate_received = true;
            }
            let ghost pre = self.queue@;
            let ghost gc = cmd@;
            self.queue.push(cmd);
            proof {
                assert(self.view() =~= queue_view(pre).push(gc));
            }
            true
        } else {
            false
        }
    }

    /// Hands out the next batch when more than one command is queued: up
    /// to the batch bound, or the whole queue once a terminate was seen.
    pub fn fast_forward(&mut self) -> (r: Option<Vec<Command>>)
        ensures
            final(self).bound() == old(self).bound(),
            final(self).sub_bound() == old(self).sub_bound(),
            final(self).terminated() == old(self).terminated(),
            ({
                let k: int = if old(self).terminated() {
                    old(self)@.len() as int
                } else if old(self).sub_bound() <= old(self)@.len() {
                    old(self).sub_bound() as int
                } else {
                    old(self)@.len() as int
                };
                if old(self)@.len() > 1 {
                    match r {
                        Some(batch) => queue_view(batch@) == old(self)@.take(k) && final(self)@
                            == old(self)@.skip(k),
                        None => false,
                    }
                } else {
                    r is None && final(self)@ == old(self)@
                }
            }),
    {
        if self.queue.len() > 1 {
            let ghost k: int = if self.terminate_received {
                self@.len() as int
            } else if self.sub_bound() <= self@.len() {
                self.sub_bound() as int
            } else {
                self@.len() as int
            };
            let mut batch: Vec<Command> = Vec::new();
            proof {
                assert(queue_view(batch@) =~= old(self)@.take(0));
            }
            while (batch.len() < self.max_sub_buffer || self.terminate_received)
                && self.queue.len() > 0
                invariant
                    batch@.len() <= k,
                    k <= old(self)@.len(),
                    k == if old(self).terminated() {
                        old(self)@.len() as int
                    } else if old(self).sub_bound() <= old(self)@.len() {
                        old(self).sub_bound() as int
                    } else {
                        old(self)@.len() as int
                    },
                    self.terminate_received == old(self).terminated(),
                    self.max_sub_buffer == old(self).sub_bound(),
                    self.max_buffer as nat == old(self).bound(),
                    queue_view(batch@) == old(self)@.take(batch@.len() as int),
                    self@ == old(self)@.skip(batch@.len() as int),
                decreases self.queue@.len(),
            {
                let ghost gb = batch@;
                let ghost pre_q = self.queue@;
                proof {
                    assert(queue_view(pre_q).len() == pre_q.len());
                    assert(queue_view(pre_q) == old(self)@.skip(gb.len() as int));
                    assert(old(self)@.skip(gb.len() as int).len() == old(self)@.len() - gb.len());
                    assert(gb.len() < old(self)@.len());
                }
                let c = self.queue.remove(0);
                let ghost gc = c@;
                batch.push(c);
                proof {
                    assert(gc == queue_view(pre_q)[0]);
                    assert(old(self)@.skip(gb.len() as int)[0] == old(self)@[gb.len() as int]);
                    assert(queue_view(batch@) =~= queue_view(gb).push(gc));
                    assert(old(self)@.take(gb.len() as int + 1).drop_last() =~= old(self)@.take(
                        gb.len() as int,
                    ));
                    assert(old(self)@.take(gb.len() as int + 1).last() == old(
                        self,
                    )@[gb.len() as int]);
                    assert(queue_view(batch@) =~= old(self)@.take(gb.len() as int + 1));
                    assert(self.queue@ == pre_q.remove(0));
                    assert(queue_view(self.queue@) =~= queue_view(pre_q).drop_first());
                    assert(queue_view(pre_q).drop_first() =~= old(self)@.skip(gb.len() as int + 1));
                }
            }
            proof {
                assert(batch@.len() == k);
            }
            Some(batch)
        } else {
            None
        }
    }
}

} // verus!
