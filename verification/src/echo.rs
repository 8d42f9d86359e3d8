//! The echo node: answers every `echo` request with an `echo_ok` carrying
//! the same string, and ignores everything else.

use vstd::prelude::*;
use crate::machine::{StateMachine, StepError};
use crate::message::{Init, InitView, Message, MessageView, Payload, PayloadView};
use crate::sender::{MessageSender, with_ids};

verus! {

/// The echo node carries no state of its own.
pub struct EchoNode {
    _private: (),
}

/// Ghost mirror of [`EchoNode`]: stateless.
pub ghost struct EchoView {
    pub stateless: (),
}

impl View for EchoNode {
    type V = EchoView;

    open spec fn view(&self) -> EchoView {
        EchoView { stateless: () }
    }
}

impl StateMachine for EchoNode {
    open spec fn wf(&self) -> bool {
        true
    }

    open spec fn init_view(init: InitView) -> EchoView {
        EchoView { stateless: () }
    }

    open spec fn step_view(v: EchoView, m: MessageView, base: usize) -> (EchoView, Seq<MessageView>, bool) {
        match m.body.payload {
            PayloadView::Echo(e) => {
                if base < usize::MAX {
                    (v, seq![m.reply_with(PayloadView::EchoOk(e))], true)
                } else {
                    (v, Seq::empty(), false)
                }
            },
            _ => (v, Seq::empty(), true),
        }
    }

    fn new(init: Init) -> (s: EchoNode) {
        EchoNode { _private: () }
    }

    fn step(&mut self, message: Message, output: &mut MessageSender) -> (r: Result<(), StepError>) {
        let ghost base = output.next_id();
        match &message.body.payload {
            Payload::Echo { echo } => {
                let reply = message.into_reply(Payload::EchoOk { echo: echo.clone() });
                match output.send(reply) {
                    Ok(()) => {
                        proof {
                            assert(with_ids(seq![reply@], base) =~= seq![reply@.with_id(base)]);
                            assert(output.history() =~= old(output).history() + with_ids(seq![reply@], base));
                        }
                        Ok(())
                    },
                    Err(e) => {
                        proof {
                            assert(output.history() =~= old(output).history() + Seq::<MessageView>::empty());
                        }
                        Err(StepError::Send(e))
                    },
                }
            },
            _ => {
                proof {
                    assert(output.history() =~= old(output).history() + Seq::<MessageView>::empty());
                }
                Ok(())
            },
        }
    }
}

} // verus!
