//! The message writer: assigns each outgoing envelope a fresh, strictly
//! increasing sequence number starting at 0, encodes it, and appends the
//! encoded line to its output buffer.  The surrounding process drains the
//! buffer to the outbound stream, one line per envelope.

use vstd::prelude::*;
use crate::message::{Message, MessageView};
use crate::codec::{spec_encode, encode_message};

verus! {

/// Why a send failed.  A failure is fatal to the node; the writer itself is
/// left unchanged.
#[derive(Debug)]
pub enum SendError {
    /// Every sequence number has been used.
    CounterExhausted,
}

/// The writer.  `id` is the next sequence number to assign; `hist` records
/// every envelope sent, as it went out; `out` holds the encoded lines.
pub struct MessageSender {
    pub id: usize,
    pub out: Vec<String>,
    pub hist: Ghost<Seq<MessageView>>,
}

/// The replies of one step, as the writer records them: the `j`th gets
/// sequence number `base + j`.
pub open spec fn with_ids(replies: Seq<MessageView>, base: usize) -> Seq<MessageView> {
    Seq::new(replies.len(), |j: int| replies[j].with_id((base + j) as usize))
}

impl MessageSender {
    /// Everything the writer ever sent.
    pub open spec fn history(&self) -> Seq<MessageView> {
        self.hist@
    }

    /// The sequence number the next send will assign.
    pub open spec fn next_id(&self) -> usize {
        self.id
    }

    /// The writer's invariant: one encoded line per sent envelope, and the
    /// `i`th envelope sent carries sequence number `i`.
    pub open spec fn wf(&self) -> bool {
        &&& self.hist@.len() == self.id
        &&& self.out@.len() == self.id
        &&& forall|i: int| 0 <= i < self.hist@.len()
            ==> (#[trigger] self.hist@[i]).body.id == Some(i as usize)
        &&& forall|i: int| 0 <= i < self.out@.len()
            ==> (#[trigger] self.out@[i])@ == spec_encode(self.hist@[i])
    }

    /// A fresh writer: nothing sent, the first sequence number is 0.
    pub fn new() -> (s: MessageSender)
        ensures
            s.wf(),
            s.history() == Seq::<MessageView>::empty(),
            s.next_id() == 0,
    {
        MessageSender { id: 0, out: Vec::new(), hist: Ghost(Seq::empty()) }
    }

    /// Send one envelope: overwrite its `id` with the writer's counter,
    /// advance the counter, and append the encoded line.  Every envelope is
    /// encodable; the send fails, leaving the writer unchanged, exactly when
    /// the counter is exhausted.
    pub fn send(&mut self, msg: Message) -> (r: Result<(), SendError>)
        requires
            old(self).wf(),
        ensures
            final(self).wf(),
            match r {
                Ok(()) => {
                    &&& old(self).id < usize::MAX
                    &&& final(self).id == old(self).id + 1
                    &&& final(self).hist@ == old(self).hist@.push(msg@.with_id(old(self).id))
                },
                Err(e) => {
                    &&& *final(self) == *old(self)
                    &&& e is CounterExhausted
                    &&& old(self).id == usize::MAX
                },
            },
    {
        if self.id == usize::MAX {
            return Err(SendError::CounterExhausted);
        }
        let mut msg = msg;
        let ghost orig = msg@;
        msg.body.id = Some(self.id);
        proof {
            assert(msg@ =~= orig.with_id(self.id));
        }
        let line = encode_message(&msg);
        self.out.push(line);
        proof {
            self.hist@ = self.hist@.push(msg@);
        }
        self.id = self.id + 1;
        Ok(())
    }

    /// The encoded lines appended since `start`, oldest first.
    pub fn lines_from(&self, start: usize) -> (r: Vec<String>)
        requires
            start <= self.out.len(),
        ensures
            r.deep_view() == self.out.deep_view().skip(start as int),
    {
        let mut r: Vec<String> = Vec::new();
        let mut i: usize = start;
        while i < self.out.len()
            invariant
                start <= i <= self.out.len(),
                r.len() == i - start,
                forall|j: int| 0 <= j < r@.len() ==> (#[trigger] r@[j])@ == self.out@[start + j]@,
            decreases self.out.len() - i,
        {
            r.push(self.out[i].clone());
            i += 1;
        }
        proof {
            assert(forall|j: int| 0 <= j < r@.len() ==> #[trigger] r.deep_view()[j] == r@[j]@);
            assert(forall|j: int| 0 <= j < self.out@.len()
                ==> #[trigger] self.out.deep_view()[j] == self.out@[j]@);
            assert(r.deep_view() =~= self.out.deep_view().skip(start as int));
        }
        r
    }

    /// How many lines stand in the output buffer.
    pub fn line_count(&self) -> (n: usize)
        ensures
            n == self.out@.len(),
    {
        self.out.len()
    }
}

/// Law: over any sequence of sends from one writer, the assigned sequence
/// numbers are exactly 0, 1, ..., n-1, in send order.
pub proof fn lemma_send_ids_sequential(s: &MessageSender)
    requires
        s.wf(),
    ensures
        forall|i: int| 0 <= i < s.history().len()
            ==> (#[trigger] s.history()[i]).body.id == Some(i as usize),
        s.history().len() == s.next_id(),
{
}

} // verus!
