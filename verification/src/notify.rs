//! News from streams, terminals, child processes and signals, and the messages that come of it.

use vstd::prelude::*;
use vstd::std_specs::iter::IteratorSpec;

use crate::action::{group_plan, plan, Action, ActionView, LogLevel};
use crate::frame::contents;
use crate::message::{MessageView, OxyMessage};
use crate::state::{same_text, Oxy, PortStream};

verus! {

broadcast use group_plan;

/// The most bytes of standard input that go into one message.
pub const STDIN_CHUNK: usize = 8192;

/// What the terminal UI has to say.
#[derive(Clone, Debug, PartialEq, Eq)]
pub enum UiMessage {
    /// A command for this side.
    MetaCommand { parts: Vec<String> },
    /// Keystrokes for the pseudo terminal.
    RawInput { input: Vec<u8> },
}

/// The signals that matter.
#[derive(Clone, Copy, Debug, PartialEq, Eq, Structural)]
pub enum SignalKind {
    /// The terminal has a new size.
    WindowChange,
    /// A child process has news.
    ChildChange,
    /// Any other signal.
    Other,
}

/// What waiting for the program in a pseudo terminal gave.
#[derive(Clone, Copy, Debug, PartialEq, Eq, Structural)]
pub struct PtyReport {
    pub reference: u64,
    /// The status of a program that has exited.
    pub exited: Option<i32>,
}

/// What waiting for a piped command gave.
#[derive(Clone, Copy, Debug, PartialEq, Eq, Structural)]
pub struct ChildReport {
    pub reference: u64,
    /// Whether the wait succeeded.
    pub waited: bool,
}

/// What was found out when a signal came.
#[derive(Clone, Debug, PartialEq, Eq)]
pub struct SignalFacts {
    /// The width of the terminal.
    pub w: u16,
    /// The height of the terminal.
    pub h: u16,
    /// The programs in pseudo terminals, in the order in which they were waited for.
    pub ptys: Vec<PtyReport>,
    /// The piped commands, in the order in which they were waited for.
    pub children: Vec<ChildReport>,
}

/// What a signal's name stands for.
pub open spec fn kind_of_signal(name: Seq<char>) -> SignalKind {
    if name == "SIGWINCH"@ {
        SignalKind::WindowChange
    } else if name == "SIGCHLD"@ {
        SignalKind::ChildChange
    } else {
        SignalKind::Other
    }
}

/// The line that the logger gets when a child process has news.
pub open spec fn child_news() -> ActionView {
    ActionView::Log { level: LogLevel::Info, to_ui: false, message: "Received SIGCHLD"@ }
}

/// The messages about programs in pseudo terminals that have exited.
pub open spec fn pty_exits(reports: Seq<PtyReport>) -> Seq<ActionView>
    decreases reports.len(),
{
    if reports.len() == 0 {
        Seq::empty()
    } else {
        let before = pty_exits(reports.drop_last());
        let last = reports.last();
        match last.exited {
            Some(status) => before.push(
                ActionView::Send(MessageView::PtyExited { reference: last.reference, status }),
            ),
            None => before,
        }
    }
}

/// The messages about piped commands that are over.
pub open spec fn child_exits(reports: Seq<ChildReport>) -> Seq<ActionView>
    decreases reports.len(),
{
    if reports.len() == 0 {
        Seq::empty()
    } else {
        let before = child_exits(reports.drop_last());
        let last = reports.last();
        if last.waited {
            before.push(
                ActionView::Send(MessageView::PipeCommandExited { reference: last.reference }),
            )
        } else {
            before
        }
    }
}

/// The piped commands that are over.
pub open spec fn waited_for(reports: Seq<ChildReport>) -> Set<u64> {
    Set::new(
        |reference: u64|
            exists|i: int|
                0 <= i < reports.len() && (#[trigger] reports[i]).reference == reference
                    && reports[i].waited,
    )
}

/// The packets of a tunnel, as they are sent.
pub open spec fn packet_messages(reference: u64, packets: Seq<Seq<u8>>) -> Seq<ActionView> {
    packets.map_values(
        |data: Seq<u8>| ActionView::Send(MessageView::TunnelData { reference, data }),
    )
}

/// What data on a stream leads to, and the end of the stream, if it was closed.
pub open spec fn stream_news(stream: PortStream, data: Seq<u8>, closed: bool) -> Seq<ActionView> {
    let reference = stream.token;
    let first = if stream.local {
        seq![ActionView::Send(MessageView::RemoteStreamData { reference, data })]
    } else {
        seq![ActionView::Send(MessageView::LocalStreamData { reference, data })]
    };
    if !closed {
        first
    } else if stream.local {
        first.push(ActionView::CloseStream { token: reference, local: true }).push(
            ActionView::Send(MessageView::RemoteStreamClosed { reference }),
        )
    } else {
        first.push(ActionView::CloseStream { token: reference, local: false }).push(
            ActionView::Send(MessageView::LocalStreamClosed { reference }),
        )
    }
}

/// The hooks that have not reported that they are done.
pub open spec fn unfinished(hooks: Seq<u64>, done: Seq<bool>) -> Seq<u64>
    decreases hooks.len(),
{
    if hooks.len() == 0 {
        Seq::empty()
    } else {
        let before = unfinished(hooks.drop_last(), done.drop_last());
        if done.last() {
            before
        } else {
            before.push(hooks.last())
        }
    }
}

/// What a signal's name stands for.
pub fn signal_kind(name: &String) -> (kind: SignalKind)
    ensures
        kind == kind_of_signal(name@),
{
    if same_text(name, "SIGWINCH") {
        SignalKind::WindowChange
    } else if same_text(name, "SIGCHLD") {
        SignalKind::ChildChange
    } else {
        SignalKind::Other
    }
}

impl PortStream {
    /// Data on this stream, and whether it was closed.
    pub fn notify(&self, oxy: &Oxy, data: Vec<u8>, closed: bool) -> (actions: Vec<Action>)
        requires
            self.local ==> oxy.local_streams@.contains_key(self.token),
            !self.local ==> oxy.remote_streams@.contains_key(self.token),
        ensures
            plan(actions@) == stream_news(*self, data@, closed),
    {
        if self.local {
            oxy.notify_local_stream(self.token, data, closed)
        } else {
            oxy.notify_remote_stream(self.token, data, closed)
        }
    }
}

impl Oxy {
    /// Packets from a tunnel.
    pub fn notify_tuntap(&self, reference_number: u64, packets: Vec<Vec<u8>>) -> (actions: Vec<
        Action,
    >)
        requires
            self.tuntaps@.contains(reference_number),
        ensures
            plan(actions@) == packet_messages(reference_number, contents(packets@)),
    {
        let ghost all = packet_messages(reference_number, contents(packets@));
        let mut actions: Vec<Action> = Vec::new();
        let mut i: usize = 0;
        while i < packets.len()
            invariant
                i <= packets@.len(),
                all == packet_messages(reference_number, contents(packets@)),
                plan(actions@) == all.take(i as int),
            decreases packets@.len() - i,
        {
            let data: Vec<u8> = packets[i].clone();
            assert(data@ =~= packets@[i as int]@);
            actions.push(
                Action::Send(OxyMessage::TunnelData { reference: reference_number, data }),
            );
            i = i + 1;
            assert(plan(actions@) =~= all.take(i as int));
        }
        assert(all.take(i as int) =~= all);
        actions
    }

    /// What a connection on a bound port leads to: `self` is the state before it, `after` the one
    /// behind it.
    pub open spec fn accepted(
        self,
        token: u64,
        announcement: MessageView,
        stream: PortStream,
        after: Oxy,
    ) -> bool {
        &&& announcement == (if self.is_server {
            MessageView::BindConnectionAccepted { reference: token }
        } else {
            MessageView::RemoteOpen { addr: self.port_binds@[token].remote_spec@ }
        })
        &&& stream == (PortStream { token: self.outgoing_ticker, local: true })
        &&& after.local_streams@ == self.local_streams@.insert(stream.token, stream)
        &&& after == (Oxy { local_streams: after.local_streams, ..self })
    }

    /// A connection on a bound port. The stream is known by the number of the message that
    /// announces it, which is the next one to be sent.
    pub fn notify_bind(&mut self, token: u64) -> (announced: (OxyMessage, PortStream))
        requires
            old(self).port_binds@.contains_key(token),
            old(self).outgoing_ticker < u64::MAX,
        ensures
            old(self).accepted(token, announced.0@, announced.1, *final(self)),
    {
        broadcast use vstd::std_specs::hash::group_hash_axioms;

        let message: OxyMessage = if self.is_client() {
            match self.port_binds.get(&token) {
                Some(bind) => OxyMessage::RemoteOpen { addr: bind.remote_spec.clone() },
                None => OxyMessage::BindConnectionAccepted { reference: token },
            }
        } else {
            OxyMessage::BindConnectionAccepted { reference: token }
        };
        let stream_token: u64 = self.outgoing_ticker;
        let stream = PortStream { token: stream_token, local: true };
        self.local_streams.insert(stream_token, stream);
        (message, stream)
    }

    /// What a message from the terminal UI leads to.
    pub open spec fn ui_news(self, message: UiMessage) -> Option<Action> {
        match message {
            UiMessage::MetaCommand { parts } => if parts@.len() == 0 {
                None
            } else {
                Some(Action::HandleMetacommand(parts))
            },
            UiMessage::RawInput { input } => match self.active_pty {
                Some(reference) => Some(
                    Action::Send(OxyMessage::PtyInput { reference, data: input }),
                ),
                None => None,
            },
        }
    }

    /// One message from the terminal UI.
    pub fn notify_ui(&self, message: UiMessage) -> (action: Option<Action>)
        ensures
            action == self.ui_news(message),
    {
        match message {
            UiMessage::MetaCommand { parts } => {
                if parts.is_empty() {
                    return None;
                }
                Some(Action::HandleMetacommand(parts))
            },
            UiMessage::RawInput { input } => {
                match self.active_pty {
                    Some(reference) => Some(
                        Action::Send(OxyMessage::PtyInput { reference, data: input }),
                    ),
                    None => None,
                }
            },
        }
    }

    /// What output of a program in a pseudo terminal leads to.
    pub open spec fn pty_news(self, reference: u64, data: Vec<u8>, action: Option<Action>) -> bool {
        &&& self.ptys@.contains_key(reference) ==> action == (if data@.len() == 0 {
            None
        } else {
            Some(Action::Send(OxyMessage::PtyOutput { reference, data }))
        })
        &&& !self.ptys@.contains_key(reference) ==> action is Some && action->0@
            == (ActionView::Log {
            level: LogLevel::Warn,
            to_ui: false,
            message: "Invalid PTY Notification recieved"@,
        })
    }

    /// Output of a program in a pseudo terminal.
    pub fn notify_pty(&self, reference: u64, data: Vec<u8>) -> (action: Option<Action>)
        ensures
            self.pty_news(reference, data, action),
    {
        broadcast use vstd::std_specs::hash::group_hash_axioms;

        if self.ptys.contains_key(&reference) {
            if !data.is_empty() {
                return Some(Action::Send(OxyMessage::PtyOutput { reference, data }));
            }
            None
        } else {
            Some(
                Action::Log {
                    level: LogLevel::Warn,
                    to_ui: false,
                    message: "Invalid PTY Notification recieved".to_owned(),
                },
            )
        }
    }

    /// What output of a piped command leads to.
    pub open spec fn pipe_news(self, token: u64, stdout: Vec<u8>, stderr: Vec<u8>) -> Option<
        Action,
    > {
        if self.piped_children@.contains(token) {
            Some(Action::Send(OxyMessage::PipeCommandOutput { reference: token, stdout, stderr }))
        } else {
            None
        }
    }

    /// Output of a piped command.
    pub fn notify_pipe_child(&self, token: u64, stdout: Vec<u8>, stderr: Vec<u8>) -> (action:
        Option<Action>)
        ensures
            action == self.pipe_news(token, stdout, stderr),
    {
        broadcast use vstd::std_specs::hash::group_hash_axioms;

        if self.piped_children.contains(&token) {
            Some(Action::Send(OxyMessage::PipeCommandOutput { reference: token, stdout, stderr }))
        } else {
            None
        }
    }

    /// Data on a stream that was opened on this side, and whether it was closed.
    pub fn notify_local_stream(&self, token: u64, data: Vec<u8>, closed: bool) -> (actions: Vec<
        Action,
    >)
        requires
            self.local_streams@.contains_key(token),
        ensures
            plan(actions@) == stream_news((PortStream { token, local: true }), data@, closed),
    {
        let mut actions: Vec<Action> = Vec::new();
        let ghost bytes = data@;
        actions.push(Action::Send(OxyMessage::RemoteStreamData { reference: token, data }));
        if closed {
            actions.push(Action::CloseStream { token, local: true });
            actions.push(Action::Send(OxyMessage::RemoteStreamClosed { reference: token }));
        }
        assert(plan(actions@) =~= stream_news(PortStream { token, local: true }, bytes, closed));
        actions
    }

    /// Data on a stream that was opened on behalf of the peer, and whether it was closed.
    pub fn notify_remote_stream(&self, token: u64, data: Vec<u8>, closed: bool) -> (actions: Vec<
        Action,
    >)
        requires
            self.remote_streams@.contains_key(token),
        ensures
            plan(actions@) == stream_news((PortStream { token, local: false }), data@, closed),
    {
        let mut actions: Vec<Action> = Vec::new();
        let ghost bytes = data@;
        actions.push(Action::Send(OxyMessage::LocalStreamData { reference: token, data }));
        if closed {
            actions.push(Action::CloseStream { token, local: false });
            actions.push(Action::Send(OxyMessage::LocalStreamClosed { reference: token }));
        }
        assert(plan(actions@) =~= stream_news(PortStream { token, local: false }, bytes, closed));
        actions
    }

    /// What a signal leads to.
    pub open spec fn signal_plan(self, kind: SignalKind, facts: SignalFacts) -> Seq<ActionView> {
        match kind {
            SignalKind::WindowChange => if !self.is_server && self.ui && self.active_pty is Some {
                seq![
                    ActionView::Send(
                        MessageView::PtySizeAdvertisement {
                            reference: self.active_pty->0,
                            w: facts.w,
                            h: facts.h,
                        },
                    ),
                ]
            } else {
                Seq::empty()
            },
            SignalKind::ChildChange => seq![child_news()] + pty_exits(facts.ptys@) + child_exits(
                facts.children@,
            ),
            SignalKind::Other => Seq::empty(),
        }
    }

    /// The programs in pseudo terminals, each once, in no particular order: the ones to wait for
    /// when a child process has news.
    pub fn watched_ptys(&self) -> (watched: Vec<(u64, i32)>)
        ensures
            watched@.no_duplicates(),
            watched@.len() == self.ptys@.len(),
            forall|i: int|
                0 <= i < watched@.len() ==> self.ptys@.contains_key((#[trigger] watched@[i]).0)
                    && self.ptys@[watched@[i].0] == watched@[i].1,
            forall|reference: u64| #[trigger]
                self.ptys@.contains_key(reference) ==> watched@.contains(
                    (reference, self.ptys@[reference]),
                ),
    {
        broadcast use vstd::std_specs::hash::group_hash_axioms;

        let mut watched: Vec<(u64, i32)> = Vec::new();
        let ghost all = self.ptys.iter().remaining();
        for entry in iter: self.ptys.iter()
            invariant
                iter.seq() == all,
                watched@.len() == iter.index(),
                forall|k: int|
                    0 <= k < iter.index() ==> #[trigger] watched@[k] == (*all[k].0, *all[k].1),
        {
            watched.push((*entry.0, *entry.1));
        }
        proof {
            assert forall|i: int| 0 <= i < watched@.len() implies self.ptys@.contains_key(
                (#[trigger] watched@[i]).0,
            ) && self.ptys@[watched@[i].0] == watched@[i].1 by {
                assert(self.ptys@.contains_key(*all[i].0));
            }
            assert forall|reference: u64| #[trigger]
                self.ptys@.contains_key(reference) implies watched@.contains(
                (reference, self.ptys@[reference]),
            ) by {
                let k = choose|k: int| 0 <= k < all.len() && all[k] == (
                    &reference,
                    &self.ptys@[reference],
                );
                assert(watched@[k] == (reference, self.ptys@[reference]));
            }
            assert forall|i: int, j: int|
                0 <= i < watched@.len() && 0 <= j < watched@.len() && i != j implies watched@[i]
                != watched@[j] by {
                assert(all[i] != all[j]);
            }
        }
        watched
    }

    /// The piped commands, each once, in no particular order: the ones to wait for when a child
    /// process has news.
    pub fn watched_children(&self) -> (watched: Vec<u64>)
        ensures
            watched@.no_duplicates(),
            watched@.to_set() == self.piped_children@,
    {
        broadcast use vstd::std_specs::hash::group_hash_axioms;

        let mut watched: Vec<u64> = Vec::new();
        let ghost all = self.piped_children.iter().remaining();
        for reference in iter: self.piped_children.iter()
            invariant
                iter.seq() == all,
                watched@ == all.unref().take(iter.index() as int),
        {
            watched.push(*reference);
            assert(watched@ =~= all.unref().take(iter.index() + 1));
        }
        assert(watched@ =~= all.unref());
        watched
    }

    /// What a signal does: `self` is the state before it, `after` the one behind it.
    pub open spec fn signalled(
        self,
        name: Seq<char>,
        facts: SignalFacts,
        actions: Seq<ActionView>,
        after: Oxy,
    ) -> bool {
        &&& actions == self.signal_plan(kind_of_signal(name), facts)
        &&& after.piped_children@ == (if kind_of_signal(name) == SignalKind::ChildChange {
            self.piped_children@.difference(waited_for(facts.children@))
        } else {
            self.piped_children@
        })
        &&& after == (Oxy { piped_children: after.piped_children, ..self })
    }

    /// A signal has come. `facts` holds what was found out: for a new window size the size, for
    /// news of child processes what waiting for them gave.
    pub fn notify_signal(&mut self, name: &String, facts: &SignalFacts) -> (actions: Vec<Action>)
        ensures
            old(self).signalled(name@, *facts, plan(actions@), *final(self)),
    {
        let mut actions: Vec<Action> = Vec::new();
        match signal_kind(name) {
            SignalKind::WindowChange => {
                if self.is_client() && self.ui {
                    if let Some(reference) = self.active_pty {
                        actions.push(
                            Action::Send(
                                OxyMessage::PtySizeAdvertisement {
                                    reference,
                                    w: facts.w,
                                    h: facts.h,
                                },
                            ),
                        );
                    }
                }
                assert(plan(actions@) =~= old(self).signal_plan(
                    SignalKind::WindowChange,
                    *facts,
                ));
            },
            SignalKind::ChildChange => {
                actions.push(
                    Action::Log {
                        level: LogLevel::Info,
                        to_ui: false,
                        message: "Received SIGCHLD".to_owned(),
                    },
                );
                assert(plan(actions@) =~= seq![child_news()]);
                push_pty_exits(&facts.ptys, &mut actions);
                self.reap_children(&facts.children, &mut actions);
                assert(plan(actions@) =~= old(self).signal_plan(SignalKind::ChildChange, *facts));
            },
            SignalKind::Other => {},
        }
        actions
    }

    /// Reports and forgets the piped commands that are over.
    fn reap_children(&mut self, reports: &Vec<ChildReport>, actions: &mut Vec<Action>)
        ensures
            plan(final(actions)@) == plan(old(actions)@) + child_exits(reports@),
            final(self).piped_children@ == old(self).piped_children@.difference(
                waited_for(reports@),
            ),
            *final(self) == (Oxy { piped_children: final(self).piped_children, ..*old(self) }),
    {
        broadcast use vstd::std_specs::hash::group_hash_axioms;

        let mut i: usize = 0;
        assert(self.piped_children@ =~= old(self).piped_children@.difference(
            waited_for(reports@.take(0)),
        ));
        while i < reports.len()
            invariant
                i <= reports@.len(),
                plan(actions@) == plan(old(actions)@) + child_exits(reports@.take(i as int)),
                self.piped_children@ == old(self).piped_children@.difference(
                    waited_for(reports@.take(i as int)),
                ),
                *self == (Oxy { piped_children: self.piped_children, ..*old(self) }),
            decreases reports@.len() - i,
        {
            broadcast use vstd::std_specs::hash::group_hash_axioms;

            let report: ChildReport = reports[i];
            let ghost before = reports@.take(i as int);
            let ghost now = reports@.take(i + 1);
            assert(now.drop_last() =~= before && now.last() == report);
            if report.waited {
                actions.push(
                    Action::Send(OxyMessage::PipeCommandExited { reference: report.reference }),
                );
                self.piped_children.remove(&report.reference);
            }
            proof {
                assert(plan(actions@) =~= plan(old(actions)@) + child_exits(now));
                assert forall|reference: u64| #[trigger]
                    waited_for(now).contains(reference) <==> waited_for(before).contains(reference)
                        || (report.waited && report.reference == reference) by {
                    if waited_for(before).contains(reference) {
                        let k = choose|k: int|
                            0 <= k < before.len() && (#[trigger] before[k]).reference == reference
                                && before[k].waited;
                        assert(now[k] == before[k]);
                    }
                    if report.waited && report.reference == reference {
                        assert(now[i as int] == report);
                    }
                    if waited_for(now).contains(reference) {
                        let k = choose|k: int|
                            0 <= k < now.len() && (#[trigger] now[k]).reference == reference
                                && now[k].waited;
                        if k < i {
                            assert(before[k] == now[k]);
                        }
                    }
                }
                assert(self.piped_children@ =~= old(self).piped_children@.difference(
                    waited_for(now),
                ));
            }
            i = i + 1;
        }
        assert(reports@.take(i as int) =~= reports@);
    }

    /// How much of standard input is to be taken: nothing without room on the transport, nothing
    /// after its end was forwarded, and nothing while there is no news.
    pub open spec fn stdin_share(
        self,
        has_write_space: bool,
        closed: bool,
        available: usize,
    ) -> Option<usize> {
        if has_write_space && self.stdin_open && (available > 0 || closed) {
            Some(
                if available > STDIN_CHUNK {
                    STDIN_CHUNK
                } else {
                    available
                },
            )
        } else {
            None
        }
    }

    /// How much of standard input is to be taken now, if anything.
    pub fn notify_pipe_stdin(&self, has_write_space: bool, closed: bool, available: usize) -> (take:
        Option<usize>)
        ensures
            take == self.stdin_share(has_write_space, closed, available),
    {
        if !has_write_space {
            return None;
        }
        if !self.stdin_open {
            return None;
        }
        let taken: usize = if available > STDIN_CHUNK {
            STDIN_CHUNK
        } else {
            available
        };
        if taken == 0 && !closed {
            return None;
        }
        Some(taken)
    }

    /// Forwards what was taken from standard input. Its end is forwarded as an empty message,
    /// and then standard input is done with.
    pub fn forward_stdin(&mut self, closed: bool, input: Vec<u8>) -> (action: Action)
        requires
            old(self).pipecmd_reference is Some,
        ensures
            action == Action::Send(
                OxyMessage::PipeCommandInput { reference: old(self).pipecmd_reference->0, input },
            ),
            *final(self) == (Oxy {
                stdin_open: old(self).stdin_open && !(closed && input@.len() == 0),
                ..*old(self)
            }),
    {
        if closed && input.is_empty() {
            self.stdin_open = false;
        }
        let reference: u64 = self.pipecmd_reference.unwrap();
        Action::Send(OxyMessage::PipeCommandInput { reference, input })
    }

    /// What it takes to have a callback run whenever there may be room on the transport: `self` is
    /// the state before it, `after` the one behind it.
    pub open spec fn wants_to_send(self, callback: u64, action: Action, after: Oxy) -> bool {
        &&& action == Action::NotifyMainTransport
        &&& after.send_hooks@ == self.send_hooks@.push(callback)
        &&& after == (Oxy { send_hooks: after.send_hooks, ..self })
    }

    /// Has a callback run whenever there may be room on the transport, until it reports that it
    /// is done; the first time right away.
    pub fn push_send_hook(&mut self, callback: u64) -> (action: Action)
        ensures
            old(self).wants_to_send(callback, action, *final(self)),
    {
        self.send_hooks.push(callback);
        Action::NotifyMainTransport
    }

    /// Forgets the send hooks that are done. `run` lists the hooks that were run, and `done` tells
    /// of each whether it is. Those that are not take the place of as many hooks at the front of
    /// the list; the hooks behind those were added meanwhile, and stay.
    pub fn settle_send_hooks(&mut self, run: &Vec<u64>, done: &Vec<bool>)
        requires
            done@.len() == run@.len() <= old(self).send_hooks@.len(),
        ensures
            final(self).send_hooks@ == unfinished(run@, done@) + old(self).send_hooks@.skip(
                run@.len() as int,
            ),
            *final(self) == (Oxy { send_hooks: final(self).send_hooks, ..*old(self) }),
    {
        let ghost hooks = self.send_hooks@;
        let mut kept: Vec<u64> = Vec::new();
        let mut i: usize = 0;
        while i < run.len()
            invariant
                i <= run@.len() == done@.len(),
                kept@ == unfinished(run@.take(i as int), done@.take(i as int)),
            decreases run@.len() - i,
        {
            proof {
                assert(run@.take(i + 1).drop_last() =~= run@.take(i as int));
                assert(done@.take(i + 1).drop_last() =~= done@.take(i as int));
            }
            if !done[i] {
                kept.push(run[i]);
            }
            i = i + 1;
        }
        let mut later: Vec<u64> = self.send_hooks.split_off(run.len());
        assert(run@.take(i as int) =~= run@);
        assert(done@.take(i as int) =~= done@);
        assert(later@ =~= hooks.skip(run@.len() as int));
        kept.append(&mut later);
        self.send_hooks = kept;
    }
}

/// Appends the messages about programs in pseudo terminals that have exited.
fn push_pty_exits(reports: &Vec<PtyReport>, actions: &mut Vec<Action>)
    ensures
        plan(final(actions)@) == plan(old(actions)@) + pty_exits(reports@),
{
    let mut i: usize = 0;
    while i < reports.len()
        invariant
            i <= reports@.len(),
            plan(actions@) == plan(old(actions)@) + pty_exits(reports@.take(i as int)),
        decreases reports@.len() - i,
    {
        let report: PtyReport = reports[i];
        assert(reports@.take(i + 1).drop_last() =~= reports@.take(i as int));
        if let Some(status) = report.exited {
            actions.push(
                Action::Send(OxyMessage::PtyExited { reference: report.reference, status }),
            );
        }
        i = i + 1;
        assert(plan(actions@) =~= plan(old(actions)@) + pty_exits(reports@.take(i as int)));
    }
    assert(reports@.take(i as int) =~= reports@);
}

} // verus!
