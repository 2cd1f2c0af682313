//! The main transport: what is done whenever it has news.
//!
//! Going through the news takes several steps between which the program around the library
//! reads, decodes and calls back. Each step takes an event, and answers with actions and with
//! what is wanted next; the answer to that is the next event.

use vstd::prelude::*;

use crate::action::{group_plan, plan, Action, ActionView, Fault, LogLevel};
use crate::channel::Incoming;
use crate::frame::contents;
use crate::message::{MessageView, OxyMessage};
use crate::notify::unfinished;
use crate::state::Oxy;

verus! {

broadcast use group_plan;

/// What has happened.
#[derive(Clone, Debug, PartialEq, Eq)]
pub enum TransportEvent {
    /// The transport has news, or is closed.
    Notified { closed: bool },
    /// A sealed frame was taken from the transport; `None` where there is none.
    Chunk(Option<Vec<u8>>),
    /// What has arrived under this number is no message.
    Unreadable { message_number: u64 },
    /// The message with this number was handled, or refused with a note.
    Handled { message_number: u64, refusal: Option<String> },
    /// Something was read of each file that is being sent, if the transport has room.
    Files { has_write_space: bool, reads: Vec<Vec<u8>> },
    /// Standard input was looked at.
    Stdin { has_write_space: bool, closed: bool, available: usize },
    /// Data was taken from standard input.
    StdinTaken { closed: bool, input: Vec<u8> },
    /// These send hooks were run; of each, whether it is done.
    HooksRun { hooks: Vec<u64>, done: Vec<bool> },
}

/// What is wanted next.
#[derive(Clone, Debug, PartialEq, Eq)]
pub enum TransportNext {
    /// A sealed frame from the transport.
    TakeChunk,
    /// The message in these bytes, decoded and handled.
    Handle { bytes: Vec<u8>, message_number: u64 },
    /// Something of each file that is being sent, if the transport has room.
    ReadFiles,
    /// A look at standard input, if it is being forwarded.
    LookAtStdin,
    /// So much of standard input.
    TakeStdin { amount: usize },
    /// A run of these hooks.
    RunHooks { hooks: Vec<u64> },
    /// Nothing.
    Rest,
}

/// What an event leads to.
#[derive(Clone, Debug, PartialEq, Eq)]
pub struct TransportTurn {
    pub actions: Vec<Action>,
    pub next: TransportNext,
}

/// The answer to a message that was not accepted.
pub open spec fn rejection(message_number: u64, note: Seq<char>) -> ActionView {
    ActionView::Send(MessageView::Reject { reference: message_number, note })
}

impl TransportNext {
    /// Whether the send hooks are what is wanted.
    pub open spec fn runs(self, hooks: Seq<u64>) -> bool {
        self matches TransportNext::RunHooks { hooks: listed } && listed@ == hooks
    }
}

impl Oxy {
    /// The states in which an event can come.
    pub open spec fn can_take(self, event: TransportEvent) -> bool {
        match event {
            TransportEvent::Chunk(Some(_)) => self.noise_session is Some && self.incoming_ticker
                < u64::MAX,
            TransportEvent::Files { has_write_space, reads } => self.can_service(
                has_write_space,
                contents(reads@),
            ),
            TransportEvent::StdinTaken { .. } => self.pipecmd_reference is Some,
            TransportEvent::HooksRun { hooks, done } => done@.len() == hooks@.len()
                <= self.send_hooks@.len(),
            _ => true,
        }
    }

    /// What an event leads to: `self` is the state before it, `after` the one behind it.
    pub open spec fn took(self, event: TransportEvent, turn: TransportTurn, after: Oxy) -> bool {
        let actions = plan(turn.actions@);
        match event {
            TransportEvent::Notified { closed } => {
                &&& actions == (if closed {
                    seq![
                        ActionView::BreakLine,
                        self.log_line(LogLevel::Info, "Connection loss detected."@),
                        ActionView::Stop(Fault::ConnectionLost),
                    ]
                } else {
                    Seq::empty()
                })
                &&& turn.next == (if closed {
                    TransportNext::Rest
                } else {
                    TransportNext::TakeChunk
                })
                &&& after == self
            },
            TransportEvent::Chunk(None) => {
                &&& actions.len() == 0
                &&& turn.next == TransportNext::ReadFiles
                &&& after == self
            },
            TransportEvent::Chunk(Some(chunk)) => match turn.next {
                TransportNext::TakeChunk => {
                    &&& actions.len() == 0
                    &&& self.received(chunk@, Incoming::Incomplete, after)
                },
                TransportNext::Handle { bytes, message_number } => {
                    &&& actions.len() == 0
                    &&& self.received(
                        chunk@,
                        (Incoming::Message { bytes, message_number }),
                        after,
                    )
                },
                TransportNext::Rest => exists|fault: Fault|
                    actions == seq![ActionView::Stop(fault)] && #[trigger] self.received(
                        chunk@,
                        Incoming::Failed(fault),
                        after,
                    ),
                _ => false,
            },
            TransportEvent::Unreadable { message_number } => {
                &&& actions == seq![rejection(message_number, "Invalid message"@)]
                &&& turn.next == TransportNext::TakeChunk
                &&& after == self
            },
            TransportEvent::Handled { message_number, refusal } => {
                &&& actions == (match refusal {
                    Some(note) => seq![rejection(message_number, note@)],
                    None => Seq::empty(),
                })
                &&& turn.next == TransportNext::TakeChunk
                &&& after == self
            },
            TransportEvent::Files { has_write_space, reads } => {
                &&& self.serviced(has_write_space, contents(reads@), actions, after)
                &&& turn.next == TransportNext::LookAtStdin
            },
            TransportEvent::Stdin { has_write_space, closed, available } => {
                &&& actions.len() == 0
                &&& match self.stdin_share(has_write_space, closed, available) {
                    Some(amount) => turn.next == (TransportNext::TakeStdin { amount }),
                    None => turn.next.runs(self.send_hooks@),
                }
                &&& after == self
            },
            TransportEvent::StdinTaken { closed, input } => {
                &&& actions == seq![
                    ActionView::Send(
                        MessageView::PipeCommandInput {
                            reference: self.pipecmd_reference->0,
                            input: input@,
                        },
                    ),
                ]
                &&& turn.next.runs(self.send_hooks@)
                &&& after == (Oxy {
                    stdin_open: self.stdin_open && !(closed && input@.len() == 0),
                    ..self
                })
            },
            TransportEvent::HooksRun { hooks, done } => {
                &&& actions.len() == 0
                &&& turn.next == TransportNext::Rest
                &&& after.send_hooks@ == unfinished(hooks@, done@) + self.send_hooks@.skip(
                    hooks@.len() as int,
                )
                &&& after == (Oxy { send_hooks: after.send_hooks, ..self })
            },
        }
    }

    /// A copy of the list of send hooks.
    fn list_send_hooks(&self) -> (next: TransportNext)
        ensures
            next.runs(self.send_hooks@),
    {
        let hooks: Vec<u64> = self.send_hooks.clone();
        assert(hooks@ =~= self.send_hooks@);
        TransportNext::RunHooks { hooks }
    }

    /// One step through the news of the main transport.
    ///
    /// It starts with `Notified`. All frames that are there are taken in; each message that
    /// completes is handled, and answered with a rejection where it cannot be read or is refused.
    /// Then the files that are being sent get a round, standard input is forwarded, and the send
    /// hooks are run.
    pub fn notify_main_transport(&mut self, event: TransportEvent) -> (turn: TransportTurn)
        requires
            old(self).can_take(event),
        ensures
            old(self).took(event, turn, *final(self)),
    {
        let mut actions: Vec<Action> = Vec::new();
        let next: TransportNext = match event {
            TransportEvent::Notified { closed } => {
                if closed {
                    actions.push(Action::BreakLine);
                    actions.push(self.log_info("Connection loss detected."));
                    actions.push(Action::Stop(Fault::ConnectionLost));
                    assert(plan(actions@) =~= seq![
                        ActionView::BreakLine,
                        self.log_line(LogLevel::Info, "Connection loss detected."@),
                        ActionView::Stop(Fault::ConnectionLost),
                    ]);
                    TransportNext::Rest
                } else {
                    TransportNext::TakeChunk
                }
            },
            TransportEvent::Chunk(None) => TransportNext::ReadFiles,
            TransportEvent::Chunk(Some(chunk)) => {
                match self.recv(chunk.as_slice()) {
                    Incoming::Incomplete => TransportNext::TakeChunk,
                    Incoming::Message { bytes, message_number } => TransportNext::Handle {
                        bytes,
                        message_number,
                    },
                    Incoming::Failed(fault) => {
                        actions.push(Action::Stop(fault));
                        assert(plan(actions@) =~= seq![ActionView::Stop(fault)]);
                        TransportNext::Rest
                    },
                }
            },
            TransportEvent::Unreadable { message_number } => {
                actions.push(reject(message_number, "Invalid message".to_owned()));
                assert(plan(actions@) =~= seq![rejection(message_number, "Invalid message"@)]);
                TransportNext::TakeChunk
            },
            TransportEvent::Handled { message_number, refusal } => {
                if let Some(note) = refusal {
                    actions.push(reject(message_number, note));
                    assert(plan(actions@) =~= seq![rejection(message_number, note@)]);
                }
                TransportNext::TakeChunk
            },
            TransportEvent::Files { has_write_space, reads } => {
                actions = self.service_transfers(has_write_space, &reads);
                TransportNext::LookAtStdin
            },
            TransportEvent::Stdin { has_write_space, closed, available } => {
                match self.notify_pipe_stdin(has_write_space, closed, available) {
                    Some(amount) => TransportNext::TakeStdin { amount },
                    None => self.list_send_hooks(),
                }
            },
            TransportEvent::StdinTaken { closed, input } => {
                let action: Action = self.forward_stdin(closed, input);
                let ghost sent = action@;
                actions.push(action);
                assert(plan(actions@) =~= seq![sent]);
                self.list_send_hooks()
            },
            TransportEvent::HooksRun { hooks, done } => {
                self.settle_send_hooks(&hooks, &done);
                TransportNext::Rest
            },
        };
        TransportTurn { actions, next }
    }
}

/// The answer to a message that was not accepted.
fn reject(message_number: u64, note: String) -> (action: Action)
    ensures
        action@ == rejection(message_number, note@),
{
    Action::Send(OxyMessage::Reject { reference: message_number, note })
}

} // verus!
