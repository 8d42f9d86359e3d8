//! The node orchestrator: owns the writer and the state machine, runs the
//! initialization handshake, then dispatches one inbound unit at a time.
//!
//! The orchestrator owns the `init`/`init_ok` exchange exclusively and never
//! forwards it to the state machine's `step`: on the first unit, which must
//! carry an `init` payload, it replies `init_ok` and constructs the machine;
//! a later `init` is rejected as a protocol sequencing error; a stray
//! `init_ok` is ignored.  Any decode failure, protocol sequencing error, or
//! step failure is fatal: the node terminates and processes nothing further.
//!
//! The surrounding process feeds lines through [`Node::handle_unit`] and
//! reports end of input through [`Node::handle_eof`]; [`Node::run`] drives a
//! whole in-memory input through the same transitions.

use vstd::prelude::*;
use crate::codec::{sp_decode, spec_encode, decode_message};
use crate::machine::{StateMachine, StepError};
use crate::message::{clone_strings, InitPayload, Message, MessageView, Payload, PayloadView};
use crate::sender::{MessageSender, with_ids};

verus! {

/// The orchestrator's lifecycle.  `Terminated` is absorbing: nothing is
/// processed after it.
#[derive(Clone, Copy, PartialEq, Eq)]
pub enum NodePhase {
    AwaitingInit,
    Running,
    Terminated,
}

/// Why the node terminated with an error.  Every variant is fatal.
#[derive(Debug)]
pub enum NodeError {
    /// The stream ended before an `init` arrived.
    NoInit,
    /// The first decoded envelope did not carry an `init` payload.
    NotInit,
    /// A second `init` arrived after initialization.
    DuplicateInit,
    /// A unit could not be decoded; carries the raw offending text.
    Decode(String),
    /// The state machine reported failure.
    Step(StepError),
}

/// Ghost mirror of [`NodeError`].
#[verifier::ext_equal]
pub ghost enum NodeErrView {
    NoInit,
    NotInit,
    DuplicateInit,
    Decode(Seq<char>),
    Step,
}

impl View for NodeError {
    type V = NodeErrView;

    open spec fn view(&self) -> NodeErrView {
        match self {
            NodeError::NoInit => NodeErrView::NoInit,
            NodeError::NotInit => NodeErrView::NotInit,
            NodeError::DuplicateInit => NodeErrView::DuplicateInit,
            NodeError::Decode(raw) => NodeErrView::Decode(raw@),
            NodeError::Step(_) => NodeErrView::Step,
        }
    }
}

/// Ghost mirror of a node: its phase, its machine's view if constructed,
/// and everything sent so far.
#[verifier::ext_equal]
pub ghost struct NodeView<MV> {
    pub phase: NodePhase,
    pub machine: Option<MV>,
    pub sent: Seq<MessageView>,
}

/// The encoded lines for the sent envelopes from index `from` on.
pub open spec fn encoded_from(sent: Seq<MessageView>, from: int) -> Seq<Seq<char>> {
    Seq::new((sent.len() - from) as nat, |j: int| spec_encode(sent[from + j]))
}

/// One inbound unit, as a transition on node views: decode it, run the
/// handshake or dispatch to the machine, and record what was sent.
pub open spec fn spec_handle_line<S: StateMachine>(
    nv: NodeView<S::V>,
    line: Seq<char>,
) -> (NodeView<S::V>, Result<(), NodeErrView>) {
    match sp_decode(line) {
        None => (
            NodeView { phase: NodePhase::Terminated, ..nv },
            Err(NodeErrView::Decode(line)),
        ),
        Some(m) => match nv.phase {
            NodePhase::AwaitingInit => match m.body.payload {
                PayloadView::Init(init) => (
                    NodeView {
                        phase: NodePhase::Running,
                        machine: Some(S::init_view(init)),
                        sent: nv.sent.push(
                            m.reply_with(PayloadView::InitOk).with_id(nv.sent.len() as usize),
                        ),
                    },
                    Ok(()),
                ),
                _ => (
                    NodeView { phase: NodePhase::Terminated, ..nv },
                    Err(NodeErrView::NotInit),
                ),
            },
            NodePhase::Running => match m.body.payload {
                PayloadView::Init(_) => (
                    NodeView { phase: NodePhase::Terminated, ..nv },
                    Err(NodeErrView::DuplicateInit),
                ),
                PayloadView::InitOk => (nv, Ok(())),
                _ => {
                    let (v2, replies, ok) = S::step_view(
                        nv.machine->Some_0,
                        m,
                        nv.sent.len() as usize,
                    );
                    let nv2 = NodeView {
                        phase: if ok { NodePhase::Running } else { NodePhase::Terminated },
                        machine: Some(v2),
                        sent: nv.sent + with_ids(replies, nv.sent.len() as usize),
                    };
                    (nv2, if ok { Ok(()) } else { Err(NodeErrView::Step) })
                },
            },
            // Terminated is absorbing; the orchestrator feeds it nothing.
            NodePhase::Terminated => (nv, Ok(())),
        },
    }
}

/// A whole run over a sequence of units: process them in order, stopping at
/// the first failure.  Yields the final view, the result, and how many
/// units were consumed.
pub open spec fn spec_run_lines<S: StateMachine>(
    nv: NodeView<S::V>,
    lines: Seq<Seq<char>>,
) -> (NodeView<S::V>, Result<(), NodeErrView>, nat)
    decreases lines.len(),
{
    if lines.len() == 0 {
        (nv, Ok(()), 0)
    } else {
        let (nv2, res) = spec_handle_line::<S>(nv, lines[0]);
        match res {
            Err(e) => (nv2, Err(e), 1),
            Ok(_) => {
                let (nv3, res3, c) = spec_run_lines::<S>(nv2, lines.skip(1));
                (nv3, res3, (1 + c) as nat)
            },
        }
    }
}

/// One transition only appends to what was sent.
pub proof fn lemma_handle_line_extends<S: StateMachine>(nv: NodeView<S::V>, line: Seq<char>)
    ensures
        ({
            let (nv2, res) = spec_handle_line::<S>(nv, line);
            &&& nv2.sent.len() >= nv.sent.len()
            &&& nv2.sent.take(nv.sent.len() as int) == nv.sent
            &&& forall|k: int| 0 <= k < nv.sent.len() ==> nv2.sent[k] == nv.sent[k]
        }),
{
    let (nv2, res) = spec_handle_line::<S>(nv, line);
    match sp_decode(line) {
        None => {
            assert(nv2.sent.take(nv.sent.len() as int) =~= nv.sent);
        },
        Some(m) => {
            assert(nv2.sent.take(nv.sent.len() as int) =~= nv.sent);
        },
    }
}

/// Runs compose: a run over `l1 + l2` is the run over `l1`, continued over
/// `l2` when `l1` went through cleanly.
pub proof fn lemma_spec_run_append<S: StateMachine>(
    nv: NodeView<S::V>,
    l1: Seq<Seq<char>>,
    l2: Seq<Seq<char>>,
)
    ensures
        ({
            let (nv1, r1, c1) = spec_run_lines::<S>(nv, l1);
            match r1 {
                Ok(_) => {
                    let (nv2, r2, c2) = spec_run_lines::<S>(nv1, l2);
                    spec_run_lines::<S>(nv, l1 + l2) == (nv2, r2, (c1 + c2) as nat)
                },
                Err(_) => spec_run_lines::<S>(nv, l1 + l2) == (nv1, r1, c1),
            }
        }),
    decreases l1.len(),
{
    if l1.len() == 0 {
        assert(l1 + l2 =~= l2);
    } else {
        let s = l1 + l2;
        assert(s[0] == l1[0]);
        assert(s.skip(1) =~= l1.skip(1) + l2);
        let (nvh, rh) = spec_handle_line::<S>(nv, l1[0]);
        match rh {
            Err(_) => {
                if s.len() > 0 {
                }
            },
            Ok(_) => {
                lemma_spec_run_append::<S>(nvh, l1.skip(1), l2);
            },
        }
    }
}

/// The orchestrator: this node's identity and peers once initialized, its
/// lifecycle phase, the machine once constructed, and the writer.
pub struct Node<S: StateMachine> {
    pub id: String,
    pub connected_nodes: Vec<String>,
    pub phase: NodePhase,
    pub machine: Option<S>,
    pub sender: MessageSender,
}

impl<S: StateMachine> Node<S> {
    /// The node's ghost mirror.
    pub open spec fn nv(&self) -> NodeView<S::V> {
        NodeView {
            phase: self.phase,
            machine: match self.machine {
                Some(m) => Some(m@),
                None => None,
            },
            sent: self.sender.history(),
        }
    }

    /// The orchestrator's invariant: the writer is consistent, no machine
    /// stands before initialization, nothing is sent before the handshake
    /// reply, and a running machine satisfies its own invariant.
    pub open spec fn wf(&self) -> bool {
        &&& self.sender.wf()
        &&& (self.phase is AwaitingInit ==> self.machine is None && self.sender.history().len() == 0)
        &&& (self.phase is Running ==> self.machine is Some)
        &&& (match self.machine {
            Some(m) => m.wf(),
            None => true,
        })
    }

    /// A fresh node, awaiting its initialization message.
    pub fn new() -> (n: Node<S>)
        ensures
            n.wf(),
            n.phase is AwaitingInit,
            n.nv() == (NodeView::<S::V> {
                phase: NodePhase::AwaitingInit,
                machine: None,
                sent: Seq::empty(),
            }),
    {
        Node {
            id: String::new(),
            connected_nodes: Vec::new(),
            phase: NodePhase::AwaitingInit,
            machine: None,
            sender: MessageSender::new(),
        }
    }

    /// Process one inbound unit.  Yields the encoded lines this unit caused
    /// to be written (to be flushed even when the result is an error), and
    /// the result.  The transition is exactly [`spec_handle_line`].
    pub fn handle_unit(&mut self, line: &str) -> (r: (Vec<String>, Result<(), NodeError>))
        requires
            old(self).wf(),
            !(old(self).phase is Terminated),
        ensures
            final(self).wf(),
            ({
                let (nv2, res) = spec_handle_line::<S>(old(self).nv(), line@);
                &&& final(self).nv() == nv2
                &&& (final(self).phase is Terminated <==> res is Err)
                &&& r.0.deep_view() == encoded_from(nv2.sent, old(self).nv().sent.len() as int)
                &&& match (r.1, res) {
                    (Ok(()), Ok(())) => true,
                    (Err(e), Err(ev)) => e@ == ev,
                    _ => false,
                }
            }),
    {
        let start = self.sender.line_count();
        proof {
            assert(start == self.nv().sent.len());
        }
        let m = match decode_message(line) {
            Err(e) => {
                self.phase = NodePhase::Terminated;
                let lines: Vec<String> = Vec::new();
                proof {
                    assert(lines.deep_view() =~= encoded_from(self.nv().sent, start as int));
                }
                return (lines, Err(NodeError::Decode(e.raw)));
            },
            Ok(m) => m,
        };
        match self.phase {
            NodePhase::AwaitingInit => {
                match m.body.payload.as_init() {
                    Some(InitPayload::Init(init)) => {
                        let reply = m.into_reply(Payload::InitOk);
                        let sent = self.sender.send(reply);
                        proof {
                            assert(sent is Ok);
                        }
                        self.id = init.node_id.clone();
                        self.connected_nodes = clone_strings(&init.node_ids);
                        let mach = S::new(init);
                        self.machine = Some(mach);
                        self.phase = NodePhase::Running;
                        let lines = self.sender.lines_from(start);
                        proof {
                            self.lemma_lines_encoded(start as int, lines.deep_view());
                            assert(self.nv() =~= spec_handle_line::<S>(old(self).nv(), line@).0);
                        }
                        (lines, Ok(()))
                    },
                    _ => {
                        self.phase = NodePhase::Terminated;
                        let lines: Vec<String> = Vec::new();
                        proof {
                            assert(lines.deep_view() =~= encoded_from(self.nv().sent, start as int));
                        }
                        (lines, Err(NodeError::NotInit))
                    },
                }
            },
            NodePhase::Running => {
                match m.body.payload.as_init() {
                    Some(InitPayload::Init(_)) => {
                        self.phase = NodePhase::Terminated;
                        let lines: Vec<String> = Vec::new();
                        proof {
                            assert(lines.deep_view() =~= encoded_from(self.nv().sent, start as int));
                        }
                        (lines, Err(NodeError::DuplicateInit))
                    },
                    Some(InitPayload::InitOk) => {
                        let lines: Vec<String> = Vec::new();
                        proof {
                            assert(lines.deep_view() =~= encoded_from(self.nv().sent, start as int));
                            assert(self.nv() =~= old(self).nv());
                        }
                        (lines, Ok(()))
                    },
                    None => {
                        match self.machine.take() {
                            Some(mut mach) => {
                                proof {
                                    assert(self.sender.next_id() == old(self).nv().sent.len());
                                }
                                let res = mach.step(m, &mut self.sender);
                                self.machine = Some(mach);
                                let lines = self.sender.lines_from(start);
                                proof {
                                    self.lemma_lines_encoded(start as int, lines.deep_view());
                                }
                                match res {
                                    Ok(()) => {
                                        proof {
                                            assert(self.nv() =~= spec_handle_line::<S>(old(self).nv(), line@).0);
                                        }
                                        (lines, Ok(()))
                                    },
                                    Err(e) => {
                                        self.phase = NodePhase::Terminated;
                                        proof {
                                            assert(self.nv() =~= spec_handle_line::<S>(old(self).nv(), line@).0);
                                        }
                                        (lines, Err(NodeError::Step(e)))
                                    },
                                }
                            },
                            None => {
                                proof {
                                    assert(false);
                                }
                                (Vec::new(), Ok(()))
                            },
                        }
                    },
                }
            },
            NodePhase::Terminated => {
                proof {
                    assert(false);
                }
                (Vec::new(), Ok(()))
            },
        }
    }

    /// Report end of input.  Clean termination when running; an error when
    /// the stream ended before any `init` arrived.  No further step runs and
    /// nothing more is written either way.
    pub fn handle_eof(&mut self) -> (r: Result<(), NodeError>)
        requires
            old(self).wf(),
            !(old(self).phase is Terminated),
        ensures
            final(self).wf(),
            final(self).nv() == (NodeView { phase: NodePhase::Terminated, ..old(self).nv() }),
            r is Ok <==> old(self).phase is Running,
            r is Err ==> r->Err_0@ == NodeErrView::NoInit,
    {
        match self.phase {
            NodePhase::AwaitingInit => {
                self.phase = NodePhase::Terminated;
                proof {
                    assert(self.nv() =~= (NodeView { phase: NodePhase::Terminated, ..old(self).nv() }));
                }
                Err(NodeError::NoInit)
            },
            NodePhase::Running => {
                self.phase = NodePhase::Terminated;
                proof {
                    assert(self.nv() =~= (NodeView { phase: NodePhase::Terminated, ..old(self).nv() }));
                }
                Ok(())
            },
            NodePhase::Terminated => {
                proof {
                    assert(false);
                }
                Ok(())
            },
        }
    }

    /// The returned lines are the encoded forms of the envelopes sent from
    /// index `start` on.
    proof fn lemma_lines_encoded(&self, start: int, lines_dv: Seq<Seq<char>>)
        requires
            self.sender.wf(),
            0 <= start <= self.sender.out@.len(),
            lines_dv == self.sender.out.deep_view().skip(start),
        ensures
            lines_dv == encoded_from(self.sender.history(), start),
    {
        assert(forall|i: int| 0 <= i < self.sender.out@.len()
            ==> #[trigger] self.sender.out.deep_view()[i] == self.sender.out@[i]@);
        assert(lines_dv =~= encoded_from(self.sender.history(), start));
    }

    /// Drive a whole in-memory input through the node: each line in order,
    /// then end of input; stop at the first failure.  Yields every line
    /// written during the run, and the final result.
    pub fn run(&mut self, lines: &Vec<String>) -> (r: (Vec<String>, Result<(), NodeError>))
        requires
            old(self).wf(),
            old(self).phase is AwaitingInit,
        ensures
            final(self).wf(),
            final(self).phase is Terminated,
            ({
                let (nv2, res, c) = spec_run_lines::<S>(old(self).nv(), lines.deep_view());
                &&& r.0.deep_view() == encoded_from(final(self).nv().sent, old(self).nv().sent.len() as int)
                &&& match res {
                    Err(e) => {
                        &&& final(self).nv() == nv2
                        &&& r.1 matches Err(err) && err@ == e
                    },
                    Ok(()) => {
                        &&& c == lines.deep_view().len()
                        &&& final(self).nv() == (NodeView { phase: NodePhase::Terminated, ..nv2 })
                        &&& if nv2.phase is Running {
                            r.1 is Ok
                        } else {
                            r.1 matches Err(err) && err@ == NodeErrView::NoInit
                        }
                    },
                }
            }),
    {
        let ghost nv0 = self.nv();
        let ghost dv = lines.deep_view();
        let ghost sent0 = self.nv().sent.len() as int;
        let mut out: Vec<String> = Vec::new();
        let mut i: usize = 0;
        let mut failure: Option<NodeError> = None;
        proof {
            assert(dv.take(0) =~= Seq::<Seq<char>>::empty());
        }
        while i < lines.len() && failure.is_none()
            invariant
                self.wf(),
                i <= lines.len(),
                dv == lines.deep_view(),
                nv0.sent.len() == sent0,
                sent0 <= self.nv().sent.len(),
                out.deep_view() == encoded_from(self.nv().sent, sent0),
                nv0.sent == self.nv().sent.take(sent0),
                match failure {
                    None => {
                        &&& !(self.phase is Terminated)
                        &&& spec_run_lines::<S>(nv0, dv.take(i as int))
                            == (self.nv(), Ok::<(), NodeErrView>(()), i as nat)
                    },
                    Some(e) => {
                        &&& self.phase is Terminated
                        &&& ({
                            let (nv2, res, c) = spec_run_lines::<S>(nv0, dv);
                            nv2 == self.nv() && res == Err::<(), NodeErrView>(e@)
                        })
                    },
                },
            decreases lines.len() - i,
        {
            let ghost nv_i = self.nv();
            let (mut newlines, res) = self.handle_unit(lines[i].as_str());
            proof {
                assert(dv[i as int] == lines@[i as int]@);
                assert(dv.take(i + 1) =~= dv.take(i as int) + seq![dv[i as int]]);
                lemma_spec_run_append::<S>(nv0, dv.take(i as int), seq![dv[i as int]]);
                assert(seq![dv[i as int]].skip(1) =~= Seq::<Seq<char>>::empty());
                assert(spec_run_lines::<S>(
                    spec_handle_line::<S>(nv_i, dv[i as int]).0,
                    Seq::<Seq<char>>::empty(),
                ) == (
                    spec_handle_line::<S>(nv_i, dv[i as int]).0,
                    Ok::<(), NodeErrView>(()),
                    0nat,
                ));
            }
            let ghost prev_out_v = out@;
            let ghost prev_out_dv = out.deep_view();
            let ghost nl_v = newlines@;
            let ghost nl_dv = newlines.deep_view();
            out.append(&mut newlines);
            proof {
                lemma_handle_line_extends::<S>(nv_i, dv[i as int]);
                assert(sent0 <= nv_i.sent.len());
                assert(self.nv() == spec_handle_line::<S>(nv_i, dv[i as int]).0);
                assert(nl_dv == encoded_from(self.nv().sent, nv_i.sent.len() as int));
                assert(prev_out_dv == encoded_from(nv_i.sent, sent0));
                assert(forall|j: int| 0 <= j < prev_out_dv.len()
                    ==> #[trigger] prev_out_dv[j] == prev_out_v[j]@);
                assert(forall|j: int| 0 <= j < nl_dv.len() ==> #[trigger] nl_dv[j] == nl_v[j]@);
                assert(forall|j: int| 0 <= j < out@.len()
                    ==> #[trigger] out.deep_view()[j] == out@[j]@);
                assert(out.deep_view() =~= prev_out_dv + nl_dv);
                assert(out.deep_view() =~= encoded_from(self.nv().sent, sent0));
                assert(nv_i.sent.take(sent0) =~= self.nv().sent.take(sent0));
            }
            match res {
                Ok(()) => {},
                Err(e) => {
                    proof {
                        assert(dv =~= dv.take(i + 1) + dv.skip(i + 1));
                        lemma_spec_run_append::<S>(nv0, dv.take(i + 1), dv.skip(i + 1));
                    }
                    failure = Some(e);
                },
            }
            i += 1;
        }
        match failure {
            Some(e) => (out, Err(e)),
            None => {
                proof {
                    assert(dv.take(i as int) =~= dv);
                }
                let res = self.handle_eof();
                (out, res)
            },
        }
    }
}

/// Law: before initialization, a unit that does not carry an `init` payload
/// terminates the node with an error: no machine is constructed, nothing is
/// sent, and the unit is never passed to a state machine.
pub proof fn lemma_first_unit_must_be_init<S: StateMachine>(nv: NodeView<S::V>, line: Seq<char>)
    requires
        nv.phase is AwaitingInit,
        nv.machine is None,
        !(sp_decode(line) matches Some(m) && m.body.payload is Init),
    ensures
        ({
            let (nv2, res) = spec_handle_line::<S>(nv, line);
            &&& res is Err
            &&& nv2.phase is Terminated
            &&& nv2.machine is None
            &&& nv2.sent == nv.sent
        }),
{
}

/// Law: a decode failure on unit `k` stops the run there: unit `k + 1` is
/// never read or dispatched, and the run's result is the decode error
/// carrying unit `k`'s text.
pub proof fn lemma_decode_failure_halts<S: StateMachine>(
    nv: NodeView<S::V>,
    lines: Seq<Seq<char>>,
    k: int,
)
    requires
        0 <= k < lines.len(),
        sp_decode(lines[k]) is None,
        spec_run_lines::<S>(nv, lines).2 > k,
    ensures
        spec_run_lines::<S>(nv, lines).2 == k + 1,
        spec_run_lines::<S>(nv, lines).1 == Err::<(), NodeErrView>(NodeErrView::Decode(lines[k])),
    decreases k,
{
    let (nv1, r1) = spec_handle_line::<S>(nv, lines[0]);
    if k == 0 {
    } else {
        match r1 {
            Err(_) => {
                assert(spec_run_lines::<S>(nv, lines).2 == 1);
            },
            Ok(_) => {
                assert(lines.skip(1)[k - 1] == lines[k]);
                lemma_decode_failure_halts::<S>(nv1, lines.skip(1), k - 1);
            },
        }
    }
}

} // verus!
