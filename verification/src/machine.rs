//! The state-machine contract: the pluggable unit of per-node application
//! logic.  The orchestrator owns the initialization handshake and never
//! forwards the reserved `init`/`init_ok` variants to a machine's `step`;
//! a machine sees application payloads only, in receipt order, and emits
//! zero or more replies through the writer.

use vstd::prelude::*;
use crate::message::{Init, InitView, Message, MessageView};
use crate::sender::{MessageSender, SendError, with_ids};

verus! {

/// Why a step failed.  A failure is fatal to the node.
#[derive(Debug)]
pub enum StepError {
    /// The writer refused a reply.
    Send(SendError),
    /// The machine cannot produce another value it needs.
    Exhausted,
}

/// Per-node application logic.  A machine abstracts to its view; `step_view`
/// is its transition function over views, and the executable `new` and
/// `step` are held to it exactly, so everything the orchestrator guarantees
/// holds for any machine that verifies against this contract.
pub trait StateMachine: Sized + View {
    /// The machine's state invariant.
    spec fn wf(&self) -> bool;

    /// The view of the machine constructed from initialization data.
    spec fn init_view(init: InitView) -> Self::V;

    /// One step as a mathematical transition: from the state's view, the
    /// inbound envelope, and the sequence number the writer will assign
    /// next, to the successor view, the replies handed to the writer in
    /// order (before sequence numbers are assigned), and whether the step
    /// succeeds.
    spec fn step_view(v: Self::V, m: MessageView, base: usize) -> (Self::V, Seq<MessageView>, bool);

    /// Construct an initialized machine.  This is the only point at which a
    /// machine learns its identity and its peers.
    fn new(init: Init) -> (s: Self)
        ensures
            s@ == Self::init_view(init@),
            s.wf(),
    ;

    /// Process one inbound envelope, emitting replies through `output`.
    /// A machine must treat a payload variant it does not answer as a no-op,
    /// not an error.
    fn step(&mut self, message: Message, output: &mut MessageSender) -> (r: Result<(), StepError>)
        requires
            old(self).wf(),
            old(output).wf(),
            !(message@.body.payload is Init),
            !(message@.body.payload is InitOk),
        ensures
            final(self).wf(),
            final(output).wf(),
            ({
                let (v2, replies, ok) = Self::step_view(old(self)@, message@, old(output).next_id());
                &&& final(self)@ == v2
                &&& final(output).history() == old(output).history() + with_ids(replies, old(output).next_id())
                &&& (r is Ok <==> ok)
            }),
    ;
}

} // verus!
