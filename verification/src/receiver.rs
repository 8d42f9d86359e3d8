//! The message reader: a single-pass, forward-only source of decoded
//! envelopes over a sequence of input units.  The surrounding process
//! delimits the stream into lines; the reader decodes them one at a time
//! and holds no state beyond its position.

use vstd::prelude::*;
use crate::codec::{sp_decode, decode_message, DecodeError};
use crate::message::Message;

verus! {

/// The reader: the input units and the position of the next one.
pub struct MessageReceiver {
    pub lines: Vec<String>,
    pub pos: usize,
}

impl MessageReceiver {
    /// The reader's invariant: the position never passes the end.
    pub open spec fn wf(&self) -> bool {
        self.pos <= self.lines.len()
    }

    /// A reader at the start of its input.
    pub fn new(lines: Vec<String>) -> (r: MessageReceiver)
        ensures
            r.wf(),
            r.lines == lines,
            r.pos == 0,
    {
        MessageReceiver { lines, pos: 0 }
    }

    /// Yield the next envelope: `None` at end of input; a decode failure
    /// carries the raw offending text and is fatal to the caller's loop.
    pub fn recv(&mut self) -> (r: Option<Result<Message, DecodeError>>)
        requires
            old(self).wf(),
        ensures
            final(self).wf(),
            final(self).lines == old(self).lines,
            match r {
                None => {
                    &&& old(self).pos == old(self).lines@.len()
                    &&& final(self).pos == old(self).pos
                },
                Some(res) => {
                    &&& old(self).pos < old(self).lines@.len()
                    &&& final(self).pos == old(self).pos + 1
                    &&& match res {
                        Ok(m) => sp_decode(old(self).lines@[old(self).pos as int]@) == Some(m@),
                        Err(e) => sp_decode(old(self).lines@[old(self).pos as int]@) is None
                            && e.raw@ == old(self).lines@[old(self).pos as int]@,
                    }
                },
            },
    {
        if self.pos == self.lines.len() {
            return None;
        }
        let line = &self.lines[self.pos];
        let res = decode_message(line.as_str());
        self.pos = self.pos + 1;
        Some(res)
    }

    /// Turn the reader into an iterator over its remaining envelopes.
    pub fn into_iter(self) -> (it: MessageIterator)
        ensures
            it.receiver == self,
    {
        MessageIterator { receiver: self }
    }
}

/// An iterator form of the reader: each `next` yields what `recv` would.
pub struct MessageIterator {
    pub receiver: MessageReceiver,
}

impl MessageIterator {
    /// Recover the reader, keeping its position.
    pub fn into_inner(self) -> (r: MessageReceiver)
        ensures
            r == self.receiver,
    {
        self.receiver
    }

    /// Yield the next envelope, as [`MessageReceiver::recv`] does.
    pub fn next(&mut self) -> (r: Option<Result<Message, DecodeError>>)
        requires
            old(self).receiver.wf(),
        ensures
            final(self).receiver.wf(),
            final(self).receiver.lines == old(self).receiver.lines,
            match r {
                None => {
                    &&& old(self).receiver.pos == old(self).receiver.lines@.len()
                    &&& final(self).receiver.pos == old(self).receiver.pos
                },
                Some(res) => {
                    &&& old(self).receiver.pos < old(self).receiver.lines@.len()
                    &&& final(self).receiver.pos == old(self).receiver.pos + 1
                    &&& match res {
                        Ok(m) => sp_decode(
                            old(self).receiver.lines@[old(self).receiver.pos as int]@,
                        ) == Some(m@),
                        Err(e) => sp_decode(
                            old(self).receiver.lines@[old(self).receiver.pos as int]@,
                        ) is None
                            && e.raw@ == old(self).receiver.lines@[old(self).receiver.pos as int]@,
                    }
                },
            },
    {
        self.receiver.recv()
    }
}

} // verus!
