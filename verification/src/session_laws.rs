//! What a session owes to the callbacks, the commands and the programs that it is used by.

use vstd::prelude::*;

use crate::action::{plan, Action, ActionView, Ending, Fault, LogLevel};
use crate::arguments::{Arguments, Terminal};
use crate::channel::{Incoming, Outgoing};
use crate::message::{MessageView, OxyMessage};
use crate::notify::{ChildReport, SignalFacts, UiMessage};
use crate::notify_laws::{law_reported_commands_are_forgotten, law_signals_that_matter, over};
use crate::startup::{PostAuthStep, PostAuthTurn};
use crate::startup_laws::{law_hooks_come_last, law_modes_of_a_server};
use crate::state::Oxy;
use crate::transport::{TransportEvent, TransportTurn};
use crate::transport_laws::Step;
use crate::words::texts;

verus! {

/// A fresh session has nothing under way: it can be started; the first message that is sent has the
/// number zero, and so has the first that arrives.
pub proof fn law_numbers_start_at_zero(
    fresh: Oxy,
    mode: Seq<char>,
    now: u128,
    keyed: Oxy,
    data: Seq<u8>,
    outgoing: Outgoing,
    chunk: Seq<u8>,
    incoming: Incoming,
    after_sending: Oxy,
    after_receiving: Oxy,
)
    requires
        fresh.is_fresh(mode, now),
        keyed == (Oxy { noise_session: keyed.noise_session, ..fresh }),
        keyed.noise_session is Some,
        keyed.sent(data, outgoing, after_sending),
        keyed.received(chunk, incoming, after_receiving),
    ensures
        fresh.can_launch(),
        outgoing.message_number == 0,
        incoming matches Incoming::Message { message_number, .. } ==> message_number == 0,
        fresh.is_server <==> seq!["server"@, "serve-one"@, "reexec"@, "reverse-server"@].contains(
            mode,
        ),
        !fresh.expired(now),
{
    law_modes_of_a_server(mode);
}

/// A fresh session is quiet: a look at the files or at standard input leads to nothing, and neither
/// do the answers of hooks; no hook is run; nothing is compressed; and keystrokes and the output of
/// commands go nowhere.
pub proof fn law_fresh_session_is_quiet(
    fresh: Oxy,
    mode: Seq<char>,
    now: u128,
    event: TransportEvent,
    turn: TransportTurn,
    after: Oxy,
)
    requires
        fresh.is_fresh(mode, now),
        fresh.can_take(event),
        fresh.took(event, turn, after),
    ensures
        event is Files || event is Stdin || event is HooksRun ==> turn.actions@.len() == 0,
        event is Stdin ==> turn.next is RunHooks && turn.next->RunHooks_hooks@.len() == 0,
        event is Files || event is Stdin ==> after.metacommand_queue@.len() == 0
            && after.transfers_out@.len() == 0,
        !fresh.outbound_compression && !fresh.inbound_compression,
        !fresh.encrypted(),
        forall|input: Vec<u8>|
            #![trigger fresh.ui_news(UiMessage::RawInput { input })]
            fresh.ui_news(UiMessage::RawInput { input }) is None,
        forall|token: u64, stdout: Vec<u8>, stderr: Vec<u8>|
            #![trigger fresh.pipe_news(token, stdout, stderr)]
            fresh.pipe_news(token, stdout, stderr) is None,
{
    assert(plan(turn.actions@).len() == turn.actions@.len());
    if let TransportEvent::Files { has_write_space, reads } = event {
        assert(after.transfers_out@.len() == 0) by {
            reveal(Seq::filter);
        }
    }
}

/// A callback that waits for the key exchange is run: at once where the session is encrypted, and
/// it is not run again; else as the last of those that wait, when their turn comes.
pub proof fn law_callback_gets_its_turn(
    before: Oxy,
    callback: u64,
    now: Option<Action>,
    waiting: Oxy,
    arguments: Arguments,
    terminal: Terminal,
    turn: PostAuthTurn,
    after: Oxy,
)
    requires
        before.waits_for_keys(callback, now, waiting),
        waiting.took_post_auth(PostAuthStep::Hooks, arguments, terminal, turn, after),
    ensures
        ({
            let actions = plan(turn.actions@);
            let hooks = before.post_auth_hooks@;
            &&& before.encrypted() ==> now == Some(Action::RunHook(callback)) && actions.len() == 1
                + hooks.len()
            &&& !before.encrypted() ==> now is None && actions.len() == 2 + hooks.len()
                && actions.last() == ActionView::RunHook(callback)
            &&& forall|i: int|
                0 <= i < hooks.len() ==> actions[1 + i] == ActionView::RunHook(#[trigger] hooks[i])
            &&& after.post_auth_hooks@.len() == 0
        }),
{
    law_hooks_come_last(waiting, arguments, terminal, turn, after);
    let hooks = before.post_auth_hooks@;
    let actions = plan(turn.actions@);
    assert forall|i: int| 0 <= i < hooks.len() implies actions[1 + i] == ActionView::RunHook(
        #[trigger] hooks[i],
    ) by {
        assert(waiting.post_auth_hooks@[i] == hooks[i]);
    }
    if !before.encrypted() {
        assert(waiting.post_auth_hooks@[hooks.len() as int] == callback);
    }
}

/// A callback that wants to send has the news of the transport gone through, and is the last of the
/// hooks that are run where nothing else happens to them.
pub proof fn law_callback_gets_to_send(
    before: Oxy,
    callback: u64,
    action: Action,
    waiting: Oxy,
    step: Step,
)
    requires
        before.wants_to_send(callback, action, waiting),
        step.before.send_hooks == waiting.send_hooks,
        step.before.took(step.event, step.turn, step.after),
        step.event is StdinTaken || step.event is Stdin && !step.event->Stdin_has_write_space,
    ensures
        action == Action::NotifyMainTransport,
        step.turn.next is RunHooks,
        ({
            let run = step.turn.next->RunHooks_hooks@;
            let hooks = before.send_hooks@;
            &&& run.len() == hooks.len() + 1
            &&& forall|i: int| 0 <= i < hooks.len() ==> run[i] == #[trigger] hooks[i]
            &&& run.last() == callback
        }),
        waiting == (Oxy { send_hooks: waiting.send_hooks, ..before }),
{
}

/// Callbacks that look at messages pile up in the order in which they come, none is lost, and from
/// the eleventh on there is a warning.
pub proof fn law_watchers_pile_up(before: Oxy, callback: u64, warning: Option<Action>, after: Oxy)
    requires
        before.watches(callback, warning, after),
    ensures
        ({
            let watchers = before.response_watchers@;
            let now = after.response_watchers@;
            &&& now.len() == watchers.len() + 1
            &&& now.last() == callback
            &&& forall|i: int| 0 <= i < watchers.len() ==> now[i] == #[trigger] watchers[i]
            &&& now.len() > 10 <==> warning is Some
            &&& warning matches Some(line) ==> (line@ matches ActionView::Log { level, to_ui, .. }
                && level == LogLevel::Debug && !to_ui)
        }),
        after == (Oxy { response_watchers: after.response_watchers, ..before }),
{
}

/// Whether a command is put into the queue in each of these steps.
pub open spec fn queued_all(states: Seq<Oxy>, commands: Seq<Vec<String>>, i: int) -> bool {
    states[i].queued(commands[i], states[i + 1])
}

/// Whether the command at the front is taken in each of these steps.
pub open spec fn popped_all(states: Seq<Oxy>, nexts: Seq<Option<Action>>, i: int) -> bool {
    states[i].popped(nexts[i], states[i + 1])
}

/// Commands that were put into an empty queue come out of it, each once, whole, in the order in
/// which they were put in; and when all have come out, nothing does.
pub proof fn law_queue_gives_back_what_it_got(
    filling: Seq<Oxy>,
    commands: Seq<Vec<String>>,
    emptying: Seq<Oxy>,
    nexts: Seq<Option<Action>>,
    n: int,
)
    requires
        filling.len() == commands.len() + 1,
        filling[0].metacommand_queue@.len() == 0,
        forall|i: int|
            0 <= i < commands.len() ==> #[trigger] queued_all(filling, commands, i),
        emptying.len() == nexts.len() + 1,
        emptying[0] == filling.last(),
        forall|i: int| 0 <= i < nexts.len() ==> #[trigger] popped_all(emptying, nexts, i),
        0 <= n < nexts.len(),
    ensures
        n < commands.len() ==> nexts[n] == Some(Action::HandleMetacommand(commands[n])),
        n >= commands.len() ==> nexts[n] is None,
{
    lemma_filled(filling, commands, commands.len() as int);
    assert(commands.take(commands.len() as int) =~= commands);
    lemma_emptied(emptying, nexts, commands, n);
    assert(popped_all(emptying, nexts, n));
}

/// What is in the queue after so many commands.
proof fn lemma_filled(filling: Seq<Oxy>, commands: Seq<Vec<String>>, n: int)
    requires
        filling.len() == commands.len() + 1,
        filling[0].metacommand_queue@.len() == 0,
        forall|i: int|
            0 <= i < commands.len() ==> #[trigger] queued_all(filling, commands, i),
        0 <= n <= commands.len(),
    ensures
        filling[n].metacommand_queue@ == commands.take(n),
    decreases n,
{
    if n > 0 {
        lemma_filled(filling, commands, n - 1);
        assert(queued_all(filling, commands, n - 1));
        assert(commands.take(n) =~= commands.take(n - 1).push(commands[n - 1]));
    } else {
        assert(filling[0].metacommand_queue@ =~= commands.take(0));
    }
}

/// What is left in the queue after so many were taken.
proof fn lemma_emptied(
    emptying: Seq<Oxy>,
    nexts: Seq<Option<Action>>,
    commands: Seq<Vec<String>>,
    n: int,
)
    requires
        emptying.len() == nexts.len() + 1,
        emptying[0].metacommand_queue@ == commands,
        forall|i: int| 0 <= i < nexts.len() ==> #[trigger] popped_all(emptying, nexts, i),
        0 <= n <= nexts.len(),
    ensures
        n <= commands.len() ==> emptying[n].metacommand_queue@ == commands.skip(n),
        n >= commands.len() ==> emptying[n].metacommand_queue@.len() == 0,
    decreases n,
{
    if n > 0 {
        lemma_emptied(emptying, nexts, commands, n - 1);
        assert(popped_all(emptying, nexts, n - 1));
        if n <= commands.len() {
            assert(commands.skip(n - 1).remove(0) =~= commands.skip(n));
        }
    } else {
        assert(commands.skip(0) =~= commands);
    }
}

/// One of the two guards lets a message pass, and never both: the one for the role of this end. The
/// other names its own fault.
pub proof fn law_guards_go_by_the_role(oxy: Oxy)
    ensures
        oxy.as_client() is Ok <==> !oxy.is_server,
        oxy.as_server() is Ok <==> oxy.is_server,
        oxy.as_client() matches Err(fault) ==> fault == Fault::NotAClient,
        oxy.as_server() matches Err(fault) ==> fault == Fault::NotAServer,
{
}

/// A log line keeps its text and its weight, and goes to the terminal UI exactly where there is
/// one.
pub proof fn law_log_lines_reach_the_user(oxy: Oxy, level: LogLevel, text: Seq<char>)
    ensures
        oxy.log_line(level, text) matches ActionView::Log { level: kept, to_ui, message } && kept
            == level && to_ui == oxy.ui && message == text,
{
}

/// How the program ends: only the loss of the connection is no failure; a peer that has fallen
/// silent has a status of its own; what the peer or the user cannot have caused is a panic; and the
/// exit hooks run where the connection is lost, where the peer is given up, and where a message was
/// to be sent too early, and nowhere else.
pub proof fn law_endings(fault: Fault)
    ensures
        fault.spec_ending() == (Ending::Exit { status: 0 }) <==> fault == Fault::ConnectionLost,
        fault.spec_ending() == (Ending::Exit { status: 2 }) <==> fault == Fault::KeepaliveExpired,
        fault.spec_ending() == (Ending::Exit { status: 1 }) <==> fault
            == Fault::SentBeforeKeyExchange,
        fault.spec_ending() == Ending::Panic <==> fault == Fault::SessionSpent || fault
            == Fault::DecompressionFailed || fault == Fault::UnsplittableCommand,
        fault.spec_ending() == (Ending::ExitAtOnce { status: 1 }) <==> fault == Fault::NotAClient
            || fault == Fault::NotAServer || fault == Fault::EncryptionFailed || fault
            == Fault::DecryptionFailed || fault == Fault::IncorrectFrameLength,
{
}

/// What the user types reaches the pseudo terminal in use, whole, and nobody where none is in use;
/// a command reaches this side, whole, unless it is empty.
pub proof fn law_user_is_heard(oxy: Oxy, message: UiMessage)
    ensures
        message matches UiMessage::RawInput { input } ==> {
            &&& oxy.ui_news(message) is Some <==> oxy.active_pty is Some
            &&& oxy.ui_news(message) matches Some(action) ==> action@ == ActionView::Send(
                MessageView::PtyInput { reference: oxy.active_pty->0, data: input@ },
            )
        },
        message matches UiMessage::MetaCommand { parts } ==> {
            &&& oxy.ui_news(message) is None <==> parts@.len() == 0
            &&& oxy.ui_news(message) matches Some(action) ==> action == Action::HandleMetacommand(
                parts,
            )
        },
{
}

/// One piece of output of the program in a pseudo terminal.
pub struct PtyPiece {
    pub oxy: Oxy,
    pub data: Vec<u8>,
    pub action: Option<Action>,
}

/// What the program has put out.
pub open spec fn put_out(pieces: Seq<PtyPiece>) -> Seq<u8>
    decreases pieces.len(),
{
    if pieces.len() == 0 {
        Seq::empty()
    } else {
        put_out(pieces.drop_last()) + pieces.last().data@
    }
}

/// What is sent of it for the pseudo terminal with this reference.
pub open spec fn passed_on(pieces: Seq<PtyPiece>, reference: u64) -> Seq<u8>
    decreases pieces.len(),
{
    if pieces.len() == 0 {
        Seq::empty()
    } else {
        passed_on(pieces.drop_last(), reference) + (match pieces.last().action {
            Some(Action::Send(OxyMessage::PtyOutput { reference: named, data })) => if named
                == reference {
                data@
            } else {
                Seq::empty()
            },
            _ => Seq::empty(),
        })
    }
}

/// However the output of a program in a pseudo terminal comes in, it is passed on whole and in
/// order, under the terminal's number; and no message is sent without output.
pub proof fn law_output_is_passed_on(pieces: Seq<PtyPiece>, reference: u64)
    requires
        forall|i: int|
            0 <= i < pieces.len() ==> (#[trigger] pieces[i]).oxy.ptys@.contains_key(reference)
                && pieces[i].oxy.pty_news(reference, pieces[i].data, pieces[i].action),
    ensures
        passed_on(pieces, reference) == put_out(pieces),
        forall|i: int|
            0 <= i < pieces.len() ==> ((#[trigger] pieces[i]).action is Some
                <==> pieces[i].data@.len() > 0),
    decreases pieces.len(),
{
    if pieces.len() > 0 {
        let shorter = pieces.drop_last();
        assert forall|i: int| 0 <= i < shorter.len() implies (
        #[trigger] shorter[i]).oxy.ptys@.contains_key(reference) && shorter[i].oxy.pty_news(
            reference,
            shorter[i].data,
            shorter[i].action,
        ) by {
            assert(shorter[i] == pieces[i]);
        }
        law_output_is_passed_on(shorter, reference);
        let last = pieces[pieces.len() - 1];
        assert(pieces.last() == last);
        assert(passed_on(pieces, reference) =~= passed_on(shorter, reference) + last.data@);
    }
}

/// Output for a pseudo terminal that does not exist goes nowhere: there is a warning in the log.
pub proof fn law_unknown_terminals_are_warned_of(
    oxy: Oxy,
    reference: u64,
    data: Vec<u8>,
    action: Option<Action>,
)
    requires
        oxy.pty_news(reference, data, action),
        !oxy.ptys@.contains_key(reference),
    ensures
        action is Some,
        action->0@ matches ActionView::Log { level, to_ui, .. } && level == LogLevel::Warn
            && !to_ui,
{
}

/// What a piped command puts out is passed on whole, the two outputs apart, under its number; and
/// nothing is said of a command that does not run.
pub proof fn law_pipes_are_passed_on(oxy: Oxy, token: u64, stdout: Vec<u8>, stderr: Vec<u8>)
    ensures
        oxy.pipe_news(token, stdout, stderr) is Some <==> oxy.piped_children@.contains(token),
        oxy.pipe_news(token, stdout, stderr) matches Some(action) ==> action@ == ActionView::Send(
            MessageView::PipeCommandOutput {
                reference: token,
                stdout: stdout@,
                stderr: stderr@,
            },
        ),
{
}

/// A piped command is forgotten exactly when news of child processes report it as over; no other
/// signal makes the session forget one, and no signal changes anything else.
pub proof fn law_signal_forgets_what_is_over(
    before: Oxy,
    name: Seq<char>,
    facts: SignalFacts,
    actions: Seq<ActionView>,
    after: Oxy,
    reference: u64,
)
    requires
        before.signalled(name, facts, actions, after),
    ensures
        ({
            let reported = exists|i: int|
                0 <= i < over(facts.children@).len() && (#[trigger] over(
                    facts.children@,
                )[i]).reference == reference;
            after.piped_children@.contains(reference) <==> before.piped_children@.contains(
                reference,
            ) && !(name == "SIGCHLD"@ && reported)
        }),
        after == (Oxy { piped_children: after.piped_children, ..before }),
{
    law_signals_that_matter(name);
    law_reported_commands_are_forgotten(facts.children@, reference);
    let children = over(facts.children@);
    let named = children.map_values(|report: ChildReport| report.reference);
    if named.contains(reference) {
        let k = choose|k: int| 0 <= k < named.len() && named[k] == reference;
        assert(children[k].reference == reference);
    }
    if exists|i: int| 0 <= i < children.len() && (#[trigger] children[i]).reference == reference {
        let k = choose|i: int|
            0 <= i < children.len() && (#[trigger] children[i]).reference == reference;
        assert(named[k] == reference);
    }
}

/// Whether two messages are of one kind and carry the same numbers, texts and data.
pub open spec fn same_message(first: OxyMessage, second: OxyMessage) -> bool {
    match (first, second) {
        (OxyMessage::Ping, OxyMessage::Ping) => true,
        (
            OxyMessage::Reject { reference: a, note: note_a },
            OxyMessage::Reject { reference: b, note: note_b },
        ) => a == b && note_a@ == note_b@,
        (
            OxyMessage::UsernameAdvertisement { username: username_a },
            OxyMessage::UsernameAdvertisement { username: username_b },
        ) => username_a@ == username_b@,
        (
            OxyMessage::EnvironmentAdvertisement { key: key_a, value: value_a },
            OxyMessage::EnvironmentAdvertisement { key: key_b, value: value_b },
        ) => key_a@ == key_b@ && value_a@ == value_b@,
        (
            OxyMessage::CompressionRequest { compression_type: a },
            OxyMessage::CompressionRequest { compression_type: b },
        ) => a == b,
        (
            OxyMessage::TunnelData { reference: a, data: data_a },
            OxyMessage::TunnelData { reference: b, data: data_b },
        ) => a == b && data_a@ == data_b@,
        (
            OxyMessage::RemoteOpen { addr: addr_a },
            OxyMessage::RemoteOpen { addr: addr_b },
        ) => addr_a@ == addr_b@,
        (
            OxyMessage::BindConnectionAccepted { reference: a },
            OxyMessage::BindConnectionAccepted { reference: b },
        ) => a == b,
        (
            OxyMessage::RemoteStreamData { reference: a, data: data_a },
            OxyMessage::RemoteStreamData { reference: b, data: data_b },
        ) => a == b && data_a@ == data_b@,
        (
            OxyMessage::RemoteStreamClosed { reference: a },
            OxyMessage::RemoteStreamClosed { reference: b },
        ) => a == b,
        (
            OxyMessage::LocalStreamData { reference: a, data: data_a },
            OxyMessage::LocalStreamData { reference: b, data: data_b },
        ) => a == b && data_a@ == data_b@,
        (
            OxyMessage::LocalStreamClosed { reference: a },
            OxyMessage::LocalStreamClosed { reference: b },
        ) => a == b,
        (
            OxyMessage::PtyInput { reference: a, data: data_a },
            OxyMessage::PtyInput { reference: b, data: data_b },
        ) => a == b && data_a@ == data_b@,
        (
            OxyMessage::PtyOutput { reference: a, data: data_a },
            OxyMessage::PtyOutput { reference: b, data: data_b },
        ) => a == b && data_a@ == data_b@,
        (
            OxyMessage::PtySizeAdvertisement { reference: a, w: w_a, h: h_a },
            OxyMessage::PtySizeAdvertisement { reference: b, w: w_b, h: h_b },
        ) => a == b && w_a == w_b && h_a == h_b,
        (
            OxyMessage::PtyExited { reference: a, status: status_a },
            OxyMessage::PtyExited { reference: b, status: status_b },
        ) => a == b && status_a == status_b,
        (
            OxyMessage::PipeCommandInput { reference: a, input: input_a },
            OxyMessage::PipeCommandInput { reference: b, input: input_b },
        ) => a == b && input_a@ == input_b@,
        (
            OxyMessage::PipeCommandOutput { reference: a, stdout: stdout_a, stderr: stderr_a },
            OxyMessage::PipeCommandOutput { reference: b, stdout: stdout_b, stderr: stderr_b },
        ) => a == b && stdout_a@ == stdout_b@ && stderr_a@ == stderr_b@,
        (
            OxyMessage::PipeCommandExited { reference: a },
            OxyMessage::PipeCommandExited { reference: b },
        ) => a == b,
        (
            OxyMessage::FileData { reference: a, data: data_a },
            OxyMessage::FileData { reference: b, data: data_b },
        ) => a == b && data_a@ == data_b@,
        _ => false,
    }
}

/// Views tell messages apart: two messages with one view are the same message.
pub proof fn law_views_tell_messages_apart(a: OxyMessage, b: OxyMessage)
    ensures
        a@ == b@ <==> same_message(a, b),
{
}

/// Views tell actions apart, as far as they carry anything: two actions with one view are of one
/// kind, and have the same numbers, texts and messages.
pub proof fn law_views_tell_actions_apart(a: Action, b: Action)
    requires
        a@ == b@,
    ensures
        match (a, b) {
            (Action::Send(first), Action::Send(second)) => same_message(first, second),
            (Action::HandleMetacommand(first), Action::HandleMetacommand(second)) => {
                &&& first@.len() == second@.len()
                &&& forall|i: int| 0 <= i < first@.len() ==> (#[trigger] first@[i])@ == second@[i]@
            },
            (
                Action::Log { level: level_a, to_ui: to_a, message: text_a },
                Action::Log { level: level_b, to_ui: to_b, message: text_b },
            ) => level_a == level_b && to_a == to_b && text_a@ == text_b@,
            _ => a == b,
        },
{
    if let (Action::HandleMetacommand(first), Action::HandleMetacommand(second)) = (a, b) {
        assert(texts(first@) == texts(second@));
        assert(texts(first@).len() == first@.len() && texts(second@).len() == second@.len());
        assert forall|i: int| 0 <= i < first@.len() implies (#[trigger] first@[i])@
            == second@[i]@ by {
            assert(texts(first@)[i] == first@[i]@);
            assert(texts(second@)[i] == second@[i]@);
        }
    }
    if let (Action::Send(first), Action::Send(second)) = (a, b) {
        law_views_tell_messages_apart(first, second);
    }
}

} // verus!
