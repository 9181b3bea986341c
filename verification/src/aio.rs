//! The byte-accounting core of the bidirectional copy engine.
//!
//! One [`CopyBuffer`] tracks one direction of a splice: the window of
//! buffered bytes (`pos..cap` within a buffer of `buf_size`), whether the
//! reader reached its end, whether written bytes still await a flush, and
//! the running byte count.  The surrounding runtime owns the actual buffer
//! and sockets; it asks [`CopyBuffer::next_step`] what to do, performs the
//! read, write, flush or shutdown, and reports the outcome back through
//! the event methods, each a verified step.
use vstd::prelude::*;

use crate::error::Error;
use crate::state::stats::add64;

verus! {

/// One direction's progress state.
#[derive(Clone, Copy, Debug, PartialEq, Eq, Structural)]
pub struct CopyBuffer {
    pub read_done: bool,
    pub need_flush: bool,
    pub pos: usize,
    pub cap: usize,
    pub amt: u64,
    pub buf_size: usize,
}

/// What the copy loop does next for this direction.
#[derive(Clone, Copy, Debug, PartialEq, Eq, Structural)]
pub enum CopyStep {
    /// The window is empty and the reader has more: refill the buffer.
    Fill,
    /// Buffered bytes remain: write the window out.
    Write,
    /// Everything is written and the reader is done: flush, then finish
    /// with the carried byte count.
    FlushAndFinish(u64),
}

impl CopyBuffer {
    /// The window sits inside the buffer.
    pub open spec fn wf(&self) -> bool {
        self.pos <= self.cap <= self.buf_size
    }

    /// A fresh direction over a buffer of `buf_size` bytes.
    pub fn new(buf_size: usize) -> (r: CopyBuffer)
        ensures
            r.wf(),
            !r.read_done,
            !r.need_flush,
            r.pos == 0,
            r.cap == 0,
            r.amt == 0,
            r.buf_size == buf_size,
    {
        CopyBuffer { read_done: false, need_flush: false, pos: 0, cap: 0, amt: 0, buf_size }
    }

    /// The next step of the per-direction loop.
    pub fn next_step(&self) -> (r: CopyStep)
        requires
            self.wf(),
        ensures
            r == (if self.pos == self.cap && !self.read_done {
                CopyStep::Fill
            } else if self.pos < self.cap {
                CopyStep::Write
            } else {
                CopyStep::FlushAndFinish(self.amt)
            }),
    {
        if self.pos == self.cap && !self.read_done {
            CopyStep::Fill
        } else if self.pos < self.cap {
            CopyStep::Write
        } else {
            CopyStep::FlushAndFinish(self.amt)
        }
    }

    /// The close signal fired: the direction finishes gracefully with its
    /// byte count so far.
    pub fn on_close_signal(&self) -> (r: u64)
        ensures
            r == self.amt,
    {
        self.amt
    }

    /// Rewinds the window before refilling an emptied buffer.
    pub fn start_fill(&mut self)
        requires
            old(self).wf(),
            old(self).pos == old(self).cap,
            !old(self).read_done,
        ensures
            final(self).wf(),
            *final(self) == (CopyBuffer { pos: 0, cap: 0, ..*old(self) }),
    {
        self.pos = 0;
        self.cap = 0;
    }

    /// A read filled the buffer up to `filled`.  A read that adds nothing
    /// means the reader reached its end.
    pub fn on_read(&mut self, filled: usize)
        requires
            old(self).wf(),
            old(self).cap <= filled <= old(self).buf_size,
        ensures
            final(self).wf(),
            *final(self) == (CopyBuffer {
                read_done: filled == old(self).cap,
                cap: filled,
                ..*old(self)
            }),
    {
        self.read_done = self.cap == filled;
        self.cap = filled;
    }

    /// The read would block: tells the runtime whether buffered written
    /// bytes must be flushed before yielding, so a buffering peer cannot
    /// starve the reader.
    pub fn on_read_would_block(&self) -> (r: bool)
        ensures
            r == self.need_flush,
    {
        self.need_flush
    }

    /// A flush completed.
    pub fn on_flush(&mut self)
        requires
            old(self).wf(),
        ensures
            final(self).wf(),
            *final(self) == (CopyBuffer { need_flush: false, ..*old(self) }),
    {
        self.need_flush = false;
    }

    /// A write moved `n` bytes of the window.  A zero-byte write is the
    /// writer failing; otherwise the window advances, the byte count grows
    /// (clamping at the counter's maximum), and the written bytes await a
    /// flush.  The returned count feeds the progress callback.
    pub fn on_write(&mut self, n: usize) -> (r: Result<u64, Error>)
        requires
            old(self).wf(),
            n <= old(self).cap - old(self).pos,
        ensures
            final(self).wf(),
            match r {
                Ok(progress) => {
                    &&& n > 0
                    &&& progress == n as u64
                    &&& *final(self) == (CopyBuffer {
                        pos: (old(self).pos + n) as usize,
                        amt: add64(old(self).amt, n as u64),
                        need_flush: true,
                        ..*old(self)
                    })
                },
                Err(e) => n == 0 && e is IOError && *final(self) == *old(self),
            },
    {
        if n == 0 {
            return Err(Error::IOError("write zero byte into writer".to_owned()));
        }
        self.pos = self.pos + n;
        self.amt = self.amt.saturating_add(n as u64);
        self.need_flush = true;
        Ok(n as u64)
    }
}

/// One direction of the splice as a whole: copying, then half-closing the
/// writer, then absorbing further polls.
#[derive(Clone, Copy, Debug, PartialEq, Eq, Structural)]
pub enum TransferState {
    Running(CopyBuffer),
    ShuttingDown(u64),
    Done(u64),
}

impl TransferState {
    /// A fresh direction over a buffer of `buf_size` bytes.
    pub fn new(buf_size: usize) -> (r: TransferState)
        ensures
            r matches TransferState::Running(b) && b == CopyBuffer::new_spec(buf_size),
    {
        TransferState::Running(CopyBuffer::new(buf_size))
    }

    /// The copy finished with `count` bytes: half-close the writer next.
    pub fn on_copy_complete(&mut self, count: u64)
        requires
            *old(self) is Running,
        ensures
            *final(self) == TransferState::ShuttingDown(count),
    {
        *self = TransferState::ShuttingDown(count);
    }

    /// The half-close completed: the direction is done, keeping its count.
    pub fn on_shutdown_complete(&mut self)
        requires
            *old(self) is ShuttingDown,
        ensures
            *final(self) == TransferState::Done((*old(self))->ShuttingDown_0),
    {
        let count = match self {
            TransferState::ShuttingDown(c) => *c,
            _ => 0,
        };
        *self = TransferState::Done(count);
    }

    /// The direction's final byte count, once it is done.  Polling a done
    /// direction again keeps returning the same count.
    pub fn result(&self) -> (r: Option<u64>)
        ensures
            match r {
                Some(c) => *self == TransferState::Done(c),
                None => !(*self is Done),
            },
    {
        match self {
            TransferState::Done(c) => Some(*c),
            _ => None,
        }
    }
}

impl CopyBuffer {
    /// The state [`CopyBuffer::new`] hands back.
    pub open spec fn new_spec(buf_size: usize) -> CopyBuffer {
        CopyBuffer { read_done: false, need_flush: false, pos: 0, cap: 0, amt: 0, buf_size }
    }
}

} // verus!
