//! What comes of news of standard input, streams, tunnels, terminals and child processes: nothing
//! of it is lost, and nothing else is said.

use vstd::prelude::*;

use crate::action::{plan, ActionView, LogLevel};
use crate::message::MessageView;
use crate::notify::{
    child_exits, kind_of_signal, packet_messages, pty_exits, stream_news, waited_for, ChildReport,
    PtyReport, SignalFacts, SignalKind,
};
use crate::state::{Oxy, PortStream};
use crate::transport::{TransportEvent, TransportNext};
use crate::transport_laws::Step;

verus! {

/// Standard input is looked at while it is open and the transport has room: whatever is there is
/// taken, as much as fits into one message, whether more is to come or not; its end is taken only
/// when nothing is left. At no other time is anything taken.
pub proof fn law_all_that_is_there_is_taken(oxy: Oxy, space: bool, closed: bool, available: usize)
    ensures
        ({
            let take = oxy.stdin_share(space, closed, available);
            &&& take is Some <==> space && oxy.stdin_open && (available > 0 || closed)
            &&& take is Some ==> {
                &&& take->0 <= available && take->0 <= 8192
                &&& take->0 == available || take->0 == 8192
                &&& take->0 == 0 ==> available == 0 && closed
            }
        }),
{
}

/// A look at standard input changes nothing and says nothing. It asks for what there is, up to the
/// size of a message; where there is nothing to take, it is the hooks' turn.
pub proof fn law_look_at_standard_input(step: Step, space: bool, closed: bool, available: usize)
    requires
        step.before.took(step.event, step.turn, step.after),
        step.event == (TransportEvent::Stdin { has_write_space: space, closed, available }),
    ensures
        step.after == step.before,
        step.turn.actions@.len() == 0,
        ({
            let due = space && step.before.stdin_open && (available > 0 || closed);
            &&& due && available <= 8192 ==> step.turn.next == (TransportNext::TakeStdin {
                amount: available,
            })
            &&& due && available > 8192 ==> step.turn.next == (TransportNext::TakeStdin {
                amount: 8192,
            })
            &&& !due ==> step.turn.next is RunHooks && step.turn.next->RunHooks_hooks@
                == step.before.send_hooks@
        }),
{
    assert(plan(step.turn.actions@).len() == step.turn.actions@.len());
}

/// What was taken from standard input goes out whole, in one message to the piped command, and it
/// is the hooks' turn. Standard input is done with exactly when the end is what was taken.
pub proof fn law_standard_input_is_forwarded(step: Step, closed: bool, input: Vec<u8>)
    requires
        step.before.can_take(step.event),
        step.before.took(step.event, step.turn, step.after),
        step.event == (TransportEvent::StdinTaken { closed, input }),
    ensures
        step.turn.actions@.len() == 1,
        ({
            &&& step.turn.actions@[0]@ matches ActionView::Send(message)
            &&& message matches MessageView::PipeCommandInput { reference, input: data }
            &&& data == input@
            &&& step.before.pipecmd_reference == Some(reference)
        }),
        step.turn.next is RunHooks,
        step.turn.next->RunHooks_hooks@ == step.before.send_hooks@,
        closed && input@.len() == 0 ==> !step.after.stdin_open,
        !(closed && input@.len() == 0) ==> step.after.stdin_open == step.before.stdin_open,
        step.after == (Oxy { stdin_open: step.after.stdin_open, ..step.before }),
{
    let actions = plan(step.turn.actions@);
    assert(actions.len() == step.turn.actions@.len());
    assert(step.turn.actions@[0]@ == actions[0]);
}

/// One look at standard input, what was taken of it, and what came in meanwhile.
pub struct StdinRound {
    pub look: Step,
    /// The step in which what was taken is forwarded; it has no meaning where nothing was taken.
    pub take: Step,
    /// What standard input has to offer when it is looked at.
    pub waiting: Seq<u8>,
    /// What it gets until it is looked at again.
    pub arrived: Seq<u8>,
}

impl StdinRound {
    /// Whether standard input has come to its end.
    pub open spec fn closed(self) -> bool {
        self.look.event->Stdin_closed
    }

    /// How much is taken.
    pub open spec fn taken(self) -> int {
        match self.look.turn.next {
            TransportNext::TakeStdin { amount } => amount as int,
            _ => 0,
        }
    }

    /// What is sent to the piped command.
    pub open spec fn sent(self) -> Seq<u8> {
        if self.look.turn.next is TakeStdin {
            match self.take.turn.actions@[0]@ {
                ActionView::Send(MessageView::PipeCommandInput { input, .. }) => input,
                _ => Seq::empty(),
            }
        } else {
            Seq::empty()
        }
    }

    /// Whether standard input is still being forwarded behind this round.
    pub open spec fn open_after(self) -> bool {
        if self.look.turn.next is TakeStdin {
            self.take.after.stdin_open
        } else {
            self.look.after.stdin_open
        }
    }

    /// Whether the round took place: the look is told what there is, and what is forwarded is what
    /// the look has asked for. Behind its end, standard input gets nothing more.
    pub open spec fn took_place(self) -> bool {
        &&& self.look.before.took(self.look.event, self.look.turn, self.look.after)
        &&& self.look.event is Stdin
        &&& self.look.event->Stdin_available == self.waiting.len()
        &&& self.closed() ==> self.arrived.len() == 0
        &&& self.look.turn.next is TakeStdin ==> {
            &&& self.take.before.can_take(self.take.event)
            &&& self.take.before.took(self.take.event, self.take.turn, self.take.after)
            &&& self.take.before.stdin_open == self.look.after.stdin_open
            &&& self.take.event is StdinTaken
            &&& self.take.event->StdinTaken_closed == self.closed()
            &&& self.take.event->StdinTaken_input@ == self.waiting.take(self.taken())
        }
    }
}

/// Whether one round follows on another: what was not taken is still there, and what has arrived
/// stands behind it.
pub open spec fn follows_on(first: StdinRound, second: StdinRound) -> bool {
    &&& second.waiting == first.waiting.skip(first.taken()) + first.arrived
    &&& second.look.before.stdin_open == first.open_after()
}

/// Whether the round with this number took place and follows on the one before it.
pub open spec fn in_order(rounds: Seq<StdinRound>, i: int) -> bool {
    &&& rounds[i].took_place()
    &&& i > 0 ==> follows_on(rounds[i - 1], rounds[i])
}

/// All that was sent, in order.
pub open spec fn all_sent(rounds: Seq<StdinRound>) -> Seq<u8>
    decreases rounds.len(),
{
    if rounds.len() == 0 {
        Seq::empty()
    } else {
        all_sent(rounds.drop_last()) + rounds.last().sent()
    }
}

/// All that standard input has yielded by the last look.
pub open spec fn all_yielded(rounds: Seq<StdinRound>) -> Seq<u8>
    decreases rounds.len(),
{
    if rounds.len() == 0 {
        Seq::empty()
    } else if rounds.len() == 1 {
        rounds[0].waiting
    } else {
        all_yielded(rounds.drop_last()) + rounds[rounds.len() - 2].arrived
    }
}

/// What one round does with standard input.
proof fn lemma_stdin_round(round: StdinRound)
    requires
        round.took_place(),
    ensures
        0 <= round.taken() <= round.waiting.len(),
        round.sent() == round.waiting.take(round.taken()),
        round.look.before.stdin_open && !round.open_after() ==> round.closed()
            && round.waiting.len() == 0 && round.look.turn.next is TakeStdin,
        round.look.turn.next is TakeStdin && round.open_after() ==> round.sent().len() > 0,
{
    let look = round.look;
    law_look_at_standard_input(
        look,
        look.event->Stdin_has_write_space,
        round.closed(),
        look.event->Stdin_available,
    );
    if look.turn.next is TakeStdin {
        law_standard_input_is_forwarded(
            round.take,
            round.closed(),
            round.take.event->StdinTaken_input,
        );
    } else {
        assert(round.waiting.take(0) =~= Seq::<u8>::empty());
    }
}

/// The piped command gets standard input whole.
///
/// However often it is looked at, and whenever it gets more, what was sent and what is left make up
/// what it has yielded. A round in which forwarding ends is one in which standard input is closed
/// and nothing is left: all that it has yielded was sent. No message before that is empty.
pub proof fn law_standard_input_arrives_whole(rounds: Seq<StdinRound>)
    requires
        rounds.len() > 0,
        forall|i: int| 0 <= i < rounds.len() ==> #[trigger] in_order(rounds, i),
    ensures
        all_sent(rounds) + rounds.last().waiting.skip(rounds.last().taken()) == all_yielded(rounds),
        rounds.last().look.before.stdin_open && !rounds.last().open_after() ==> {
            &&& rounds.last().closed()
            &&& rounds.last().sent().len() == 0
            &&& all_sent(rounds) == all_yielded(rounds)
        },
        rounds.last().look.turn.next is TakeStdin && rounds.last().open_after()
            ==> rounds.last().sent().len() > 0,
    decreases rounds.len(),
{
    let last = rounds.len() - 1;
    assert(in_order(rounds, last));
    assert(rounds.last() == rounds[last]);
    let round = rounds[last];
    lemma_stdin_round(round);
    let left = round.waiting.skip(round.taken());
    if last == 0 {
        assert(rounds.drop_last() =~= Seq::<StdinRound>::empty());
        assert(all_sent(rounds.drop_last()) =~= Seq::<u8>::empty());
        assert(all_sent(rounds) =~= round.sent());
        assert(all_sent(rounds) + left =~= round.waiting);
    } else {
        let shorter = rounds.drop_last();
        assert forall|i: int| 0 <= i < shorter.len() implies #[trigger] in_order(shorter, i) by {
            assert(in_order(rounds, i));
        }
        law_standard_input_arrives_whole(shorter);
        let before = rounds[last - 1];
        assert(shorter.last() == before);
        assert(follows_on(before, round));
        assert(round.sent() + left =~= round.waiting);
        assert(all_sent(rounds) + left =~= all_sent(shorter) + round.waiting);
        assert(all_sent(rounds) + left =~= all_yielded(shorter) + before.arrived);
    }
    if round.look.before.stdin_open && !round.open_after() {
        assert(left =~= Seq::<u8>::empty());
        assert(all_sent(rounds) + left =~= all_sent(rounds));
    }
}

/// What a stream brings is sent whole, under the stream's own number, to the other end of it; where
/// the stream was closed, it is closed here and the other end is told, after the data; and where it
/// was not, nothing else happens.
pub proof fn law_stream_data_goes_to_the_other_end(stream: PortStream, data: Seq<u8>, closed: bool)
    ensures
        ({
            let actions = stream_news(stream, data, closed);
            let reference = stream.token;
            &&& closed ==> actions.len() == 3
            &&& !closed ==> actions.len() == 1
            &&& stream.local ==> actions[0] == ActionView::Send(
                MessageView::RemoteStreamData { reference, data },
            )
            &&& !stream.local ==> actions[0] == ActionView::Send(
                MessageView::LocalStreamData { reference, data },
            )
            &&& closed ==> actions[1] == (ActionView::CloseStream {
                token: reference,
                local: stream.local,
            })
            &&& closed && stream.local ==> actions[2] == ActionView::Send(
                MessageView::RemoteStreamClosed { reference },
            )
            &&& closed && !stream.local ==> actions[2] == ActionView::Send(
                MessageView::LocalStreamClosed { reference },
            )
        }),
{
}

/// Every packet of a tunnel is sent, whole, in order, in a message of its own, under the tunnel's
/// number.
pub proof fn law_packets_are_sent_one_by_one(reference: u64, packets: Seq<Seq<u8>>)
    ensures
        packet_messages(reference, packets).len() == packets.len(),
        forall|i: int|
            0 <= i < packets.len() ==> #[trigger] packet_messages(reference, packets)[i]
                == ActionView::Send(
                MessageView::TunnelData { reference, data: packets[i] },
            ),
{
}

/// Only two signals matter.
pub proof fn law_signals_that_matter(name: Seq<char>)
    ensures
        kind_of_signal(name) == SignalKind::WindowChange <==> name == "SIGWINCH"@,
        kind_of_signal(name) == SignalKind::ChildChange <==> name == "SIGCHLD"@,
{
    reveal_strlit("SIGWINCH");
    reveal_strlit("SIGCHLD");
    assert("SIGWINCH"@.len() == 8 && "SIGCHLD"@.len() == 7);
}

/// A new size of the terminal is told to the server, for the pseudo terminal in use, exactly by a
/// client with a terminal UI that has one in use. A signal that does not matter leads to nothing.
pub proof fn law_window_size_is_told(oxy: Oxy, name: Seq<char>, facts: SignalFacts)
    requires
        name != "SIGCHLD"@,
    ensures
        ({
            let actions = oxy.signal_plan(kind_of_signal(name), facts);
            let due = name == "SIGWINCH"@ && !oxy.is_server && oxy.ui && oxy.active_pty is Some;
            &&& due ==> actions.len() == 1 && actions[0] == ActionView::Send(
                MessageView::PtySizeAdvertisement {
                    reference: oxy.active_pty->0,
                    w: facts.w,
                    h: facts.h,
                },
            )
            &&& !due ==> actions.len() == 0
        }),
{
    law_signals_that_matter(name);
}

/// The programs in pseudo terminals that have exited.
pub open spec fn exited(reports: Seq<PtyReport>) -> Seq<PtyReport> {
    reports.filter(|report: PtyReport| report.exited is Some)
}

/// The piped commands that are over.
pub open spec fn over(reports: Seq<ChildReport>) -> Seq<ChildReport> {
    reports.filter(|report: ChildReport| report.waited)
}

/// News of child processes are noted in the log; then every program in a pseudo terminal that has
/// exited is reported with its status, and every piped command that is over, each once, in the
/// order in which they were found; and no other is.
pub proof fn law_exits_are_reported(oxy: Oxy, facts: SignalFacts)
    ensures
        ({
            let actions = oxy.signal_plan(kind_of_signal("SIGCHLD"@), facts);
            let ptys = exited(facts.ptys@);
            let children = over(facts.children@);
            &&& actions.len() == 1 + ptys.len() + children.len()
            &&& actions[0] == (ActionView::Log {
                level: LogLevel::Info,
                to_ui: false,
                message: "Received SIGCHLD"@,
            })
            &&& forall|i: int|
                0 <= i < ptys.len() ==> actions[1 + i] == ActionView::Send(
                    MessageView::PtyExited {
                        reference: (#[trigger] ptys[i]).reference,
                        status: ptys[i].exited->0,
                    },
                )
            &&& forall|i: int|
                0 <= i < children.len() ==> actions[1 + ptys.len() + i] == ActionView::Send(
                    MessageView::PipeCommandExited {
                        reference: (#[trigger] children[i]).reference,
                    },
                )
        }),
{
    law_signals_that_matter("SIGCHLD"@);
    lemma_pty_exits(facts.ptys@);
    lemma_child_exits(facts.children@);
    let actions = oxy.signal_plan(kind_of_signal("SIGCHLD"@), facts);
    let ptys = exited(facts.ptys@);
    let children = over(facts.children@);
    assert forall|i: int| 0 <= i < ptys.len() implies actions[1 + i] == ActionView::Send(
        MessageView::PtyExited {
            reference: (#[trigger] ptys[i]).reference,
            status: ptys[i].exited->0,
        },
    ) by {
        assert(actions[1 + i] == pty_exits(facts.ptys@)[i]);
    }
    assert forall|i: int| 0 <= i < children.len() implies actions[1 + ptys.len() + i]
        == ActionView::Send(
        MessageView::PipeCommandExited { reference: (#[trigger] children[i]).reference },
    ) by {
        assert(actions[1 + ptys.len() + i] == child_exits(facts.children@)[i]);
    }
}

/// The messages about programs in pseudo terminals.
proof fn lemma_pty_exits(reports: Seq<PtyReport>)
    ensures
        pty_exits(reports).len() == exited(reports).len(),
        forall|i: int|
            0 <= i < exited(reports).len() ==> #[trigger] pty_exits(reports)[i] == ActionView::Send(
                MessageView::PtyExited {
                    reference: exited(reports)[i].reference,
                    status: exited(reports)[i].exited->0,
                },
            ),
    decreases reports.len(),
{
    reveal(Seq::filter);
    if reports.len() > 0 {
        lemma_pty_exits(reports.drop_last());
    }
}

/// The messages about piped commands.
proof fn lemma_child_exits(reports: Seq<ChildReport>)
    ensures
        child_exits(reports).len() == over(reports).len(),
        forall|i: int|
            0 <= i < over(reports).len() ==> #[trigger] child_exits(reports)[i] == ActionView::Send(
                MessageView::PipeCommandExited { reference: over(reports)[i].reference },
            ),
    decreases reports.len(),
{
    reveal(Seq::filter);
    if reports.len() > 0 {
        lemma_child_exits(reports.drop_last());
    }
}

/// The piped commands that are forgotten when news of child processes come are exactly those that
/// are reported as over.
pub proof fn law_reported_commands_are_forgotten(reports: Seq<ChildReport>, reference: u64)
    ensures
        waited_for(reports).contains(reference) <==> over(reports).map_values(
            |report: ChildReport| report.reference,
        ).contains(reference),
    decreases reports.len(),
{
    reveal(Seq::filter);
    let f = |report: ChildReport| report.reference;
    let named = over(reports).map_values(f);
    if reports.len() > 0 {
        let shorter = reports.drop_last();
        let before = over(shorter).map_values(f);
        law_reported_commands_are_forgotten(shorter, reference);
        if reports.last().waited {
            assert(named =~= before.push(reports.last().reference));
        } else {
            assert(named =~= before);
        }
        if before.contains(reference) {
            let k = choose|k: int| 0 <= k < before.len() && before[k] == reference;
            assert(named[k] == reference);
        }
        if reports.last().waited && reports.last().reference == reference {
            assert(named[before.len() as int] == reference);
            assert(reports[reports.len() - 1].waited);
        }
        if waited_for(shorter).contains(reference) {
            let k = choose|k: int|
                0 <= k < shorter.len() && (#[trigger] shorter[k]).reference == reference
                    && shorter[k].waited;
            assert(reports[k] == shorter[k]);
        }
        if waited_for(reports).contains(reference) {
            let k = choose|k: int|
                0 <= k < reports.len() && (#[trigger] reports[k]).reference == reference
                    && reports[k].waited;
            if k < shorter.len() {
                assert(shorter[k] == reports[k]);
            }
        }
        if named.contains(reference) {
            let k = choose|k: int| 0 <= k < named.len() && named[k] == reference;
            if k < before.len() {
                assert(before[k] == reference);
            }
        }
    }
}

} // verus!
