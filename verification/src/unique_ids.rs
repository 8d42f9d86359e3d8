//! The unique-id node: answers every `generate` request with a
//! `generate_ok` carrying a globally unique identifier of the form
//! `<node>-<counter>`, with the counter starting at 1, and ignores
//! everything else.  Uniqueness rests on node identifiers being unique and
//! the counter never repeating.

use vstd::prelude::*;
use crate::codec::{str_to_chars, chars_to_string};
use crate::machine::{StateMachine, StepError};
use crate::message::{Init, InitView, Message, MessageView, Payload, PayloadView};
use crate::numbers::{spec_dec, push_dec};
use crate::sender::{MessageSender, with_ids};

verus! {

/// The identifier issued for counter value `k` on node `node`.
pub open spec fn guid_of(node: Seq<char>, k: usize) -> Seq<char> {
    node + seq!['-'] + spec_dec(k as nat)
}

/// The unique-id node: its own identifier and the next counter value.
pub struct UniqueIdsNode {
    pub node: String,
    pub id: usize,
}

/// Ghost mirror of [`UniqueIdsNode`].
#[verifier::ext_equal]
pub ghost struct UniqueIdsView {
    pub node: Seq<char>,
    pub id: usize,
}

impl View for UniqueIdsNode {
    type V = UniqueIdsView;

    open spec fn view(&self) -> UniqueIdsView {
        UniqueIdsView { node: self.node@, id: self.id }
    }
}

impl UniqueIdsNode {
    /// Produce the next identifier and advance the counter.
    pub fn next_guid(&mut self) -> (r: String)
        requires
            old(self).id < usize::MAX,
        ensures
            final(self).node == old(self).node,
            final(self).id == old(self).id + 1,
            r@ == guid_of(old(self).node@, old(self).id),
    {
        let mut cs = str_to_chars(self.node.as_str());
        cs.push('-');
        push_dec(self.id, &mut cs);
        let r = chars_to_string(&cs);
        proof {
            assert(cs@ =~= guid_of(self.node@, self.id));
        }
        self.id = self.id + 1;
        r
    }
}

impl StateMachine for UniqueIdsNode {
    open spec fn wf(&self) -> bool {
        true
    }

    open spec fn init_view(init: InitView) -> UniqueIdsView {
        UniqueIdsView { node: init.node_id, id: 1 }
    }

    open spec fn step_view(v: UniqueIdsView, m: MessageView, base: usize) -> (UniqueIdsView, Seq<MessageView>, bool) {
        match m.body.payload {
            PayloadView::Generate => {
                if v.id < usize::MAX && base < usize::MAX {
                    let guid = guid_of(v.node, v.id);
                    (
                        UniqueIdsView { node: v.node, id: (v.id + 1) as usize },
                        seq![m.reply_with(PayloadView::GenerateOk(guid))],
                        true,
                    )
                } else {
                    (v, Seq::empty(), false)
                }
            },
            _ => (v, Seq::empty(), true),
        }
    }

    fn new(init: Init) -> (s: UniqueIdsNode) {
        UniqueIdsNode { node: init.node_id, id: 1 }
    }

    fn step(&mut self, message: Message, output: &mut MessageSender) -> (r: Result<(), StepError>) {
        let ghost base = output.next_id();
        match &message.body.payload {
            Payload::Generate => {
                if self.id == usize::MAX {
                    proof {
                        assert(output.history() =~= old(output).history() + Seq::<MessageView>::empty());
                    }
                    return Err(StepError::Exhausted);
                }
                let ghost k = self.id;
                let guid = self.next_guid();
                let reply = message.into_reply(Payload::GenerateOk { guid });
                match output.send(reply) {
                    Ok(()) => {
                        proof {
                            assert(with_ids(seq![reply@], base) =~= seq![reply@.with_id(base)]);
                            assert(output.history() =~= old(output).history() + with_ids(seq![reply@], base));
                            assert(self@ =~= UniqueIdsView { node: old(self)@.node, id: (old(self)@.id + 1) as usize });
                        }
                        Ok(())
                    },
                    Err(e) => {
                        // The writer refused: restore the counter so the
                        // state matches the failed transition.
                        self.id = self.id - 1;
                        proof {
                            assert(base == usize::MAX);
                            assert(self@ =~= old(self)@);
                            assert(output.history() =~= old(output).history() + Seq::<MessageView>::empty());
                        }
                        Err(StepError::Send(e))
                    },
                }
            },
            _ => {
                proof {
                    assert(output.history() =~= old(output).history() + Seq::<MessageView>::empty());
                }
                Ok(())
            },
        }
    }
}

} // verus!
