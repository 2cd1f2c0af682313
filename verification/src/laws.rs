//! What holds of the library across its functions.

use vstd::prelude::*;

use crate::action::{plan, ActionView};
use crate::arguments::{
    after_colon, batched, before_colon, stops, tunnel_local, tunnel_remote, Arguments, Terminal,
};
use crate::channel::{absorb, Arrival, Incoming, Outgoing};
use crate::frame::{
    contents, frame_share, frames_of, lemma_frame_size, FRAME_CAPACITY, FRAME_SIZE,
};
use crate::message::MessageView;
use crate::notify::{unfinished, STDIN_CHUNK};
use crate::startup::{attachment, hook_calls, PostAuthStep, PostAuthTurn};
use crate::state::{Oxy, PortStream};
use crate::transfer::{next_command, service_all, without_next, TransferOut};
use crate::transport::{TransportEvent, TransportNext, TransportTurn};
use crate::words::texts;

verus! {

/// Takes in opened frames one after another, beginning with nothing under way: what the last of
/// them brings, and what is left under way.
pub open spec fn absorb_all(compression: bool, frames: Seq<Seq<u8>>) -> (Arrival, Seq<u8>)
    decreases frames.len(),
{
    if frames.len() == 0 {
        (Arrival::Incomplete, Seq::empty())
    } else {
        absorb(absorb_all(compression, frames.drop_last()).1, compression, frames.last())
    }
}

/// The first `n` frames of a message leave its first bytes under way.
proof fn lemma_absorb_prefix(data: Seq<u8>, compression: bool, n: int)
    requires
        0 <= n < frames_of(data).len(),
    ensures
        n * FRAME_CAPACITY <= data.len(),
        absorb_all(compression, frames_of(data).take(n)) == (
            Arrival::Incomplete,
            data.take(n * FRAME_CAPACITY),
        ),
    decreases n,
{
    let frames = frames_of(data);
    if n == 0 {
        assert(data.take(0) =~= Seq::<u8>::empty());
    } else {
        lemma_absorb_prefix(data, compression, n - 1);
        lemma_frame_size(data, n - 1);
        assert(frames.take(n).drop_last() =~= frames.take(n - 1));
        assert(data.take((n - 1) * FRAME_CAPACITY) + frame_share(data, n - 1) =~= data.take(
            n * FRAME_CAPACITY,
        ));
    }
}

/// Cutting a message into frames loses nothing: whoever takes in the frames one after another
/// has the message at the last of them, and nothing left under way.
pub proof fn law_framing_round_trip(data: Seq<u8>)
    requires
        data.len() > 0,
    ensures
        absorb_all(false, frames_of(data)) == (Arrival::Complete(data), Seq::<u8>::empty()),
{
    let frames = frames_of(data);
    let last = frames.len() - 1;
    lemma_absorb_prefix(data, false, last);
    lemma_frame_size(data, last);
    assert(frames.drop_last() =~= frames.take(last));
    assert(data.take(last * FRAME_CAPACITY) + frame_share(data, last) =~= data);
}

/// All frames have the same size, whatever the message: the length of a message shows only in
/// the number of its frames.
pub proof fn law_frames_look_alike(data: Seq<u8>, i: int)
    requires
        0 <= i < frames_of(data).len(),
    ensures
        frames_of(data)[i].len() == FRAME_SIZE,
        frames_of(data).len() == data.len() / FRAME_CAPACITY as nat + 1,
{
    lemma_frame_size(data, i);
}

/// Two messages that are sent one after the other have numbers that follow on each other,
/// whether they could be sent or not.
pub proof fn law_numbers_follow(
    before: Oxy,
    first: Seq<u8>,
    first_sent: Outgoing,
    between: Oxy,
    second: Seq<u8>,
    second_sent: Outgoing,
    after: Oxy,
)
    requires
        before.sent(first, first_sent, between),
        between.sent(second, second_sent, after),
    ensures
        second_sent.message_number == first_sent.message_number + 1,
{
}

/// A connection on a bound port is known by the number that its announcement gets.
pub proof fn law_stream_token_is_message_number(
    before: Oxy,
    announced: Oxy,
    stream: PortStream,
    data: Seq<u8>,
    outgoing: Outgoing,
    after: Oxy,
)
    requires
        stream.token == before.outgoing_ticker,
        announced == (Oxy { local_streams: announced.local_streams, ..before }),
        announced.local_streams@ == before.local_streams@.insert(stream.token, stream),
        announced.sent(data, outgoing, after),
    ensures
        after.local_streams@.contains_key(outgoing.message_number),
        after.local_streams@[outgoing.message_number] == stream,
{
}

/// Once a connection on a bound port was announced, there is one stream more, of this side, under
/// the number of the announcement; the others are as they were.
pub proof fn law_announced_stream_is_added(
    before: Oxy,
    token: u64,
    announcement: MessageView,
    announced: Oxy,
    stream: PortStream,
    data: Seq<u8>,
    outgoing: Outgoing,
    after: Oxy,
)
    requires
        before.accepted(token, announcement, stream, announced),
        announced.sent(data, outgoing, after),
    ensures
        stream.token == outgoing.message_number && stream.local,
        after.local_streams@.contains_key(outgoing.message_number),
        after.local_streams@[outgoing.message_number] == stream,
        forall|other: u64| #[trigger]
            before.local_streams@.contains_key(other) && other != stream.token
                ==> after.local_streams@.contains_key(other) && after.local_streams@[other]
                == before.local_streams@[other],
        forall|other: u64| #[trigger]
            after.local_streams@.contains_key(other) ==> other == stream.token
                || before.local_streams@.contains_key(other),
{
}

/// A client asks for the address that the port is forwarded to; a server tells which port has got
/// the connection.
pub proof fn law_connection_is_announced(
    before: Oxy,
    token: u64,
    announcement: MessageView,
    stream: PortStream,
    after: Oxy,
)
    requires
        before.accepted(token, announcement, stream, after),
    ensures
        !before.is_server ==> (announcement matches MessageView::RemoteOpen { addr } && addr
            == before.port_binds@[token].remote_spec@),
        before.is_server ==> (announcement matches MessageView::BindConnectionAccepted {
            reference,
        } && reference == token),
        after.port_binds == before.port_binds,
        after.remote_streams == before.remote_streams,
{
}

/// Commands come out of the queue in the order in which they were put in: one that is put in
/// does not change which comes next, unless it is the only one.
pub proof fn law_queue_is_in_order(queue: Seq<Vec<String>>, command: Vec<String>)
    ensures
        queue.len() > 0 ==> next_command(queue.push(command)) == next_command(queue),
        queue.len() > 0 ==> without_next(queue.push(command)) == without_next(queue).push(command),
        queue.len() == 0 ==> next_command(queue.push(command)) == next_command(seq![command]),
        queue.len() == 0 ==> without_next(queue.push(command)).len() == 0,
{
    if queue.len() > 0 {
        assert(without_next(queue.push(command)) =~= without_next(queue).push(command));
    }
}

/// A tunnel is named by one name for both sides, or by two with a colon between them; what a
/// second colon brings is ignored.
pub proof fn law_tunnel_names(here: Seq<char>, there: Seq<char>, more: Seq<char>)
    requires
        !here.contains(':'),
        !there.contains(':'),
    ensures
        tunnel_local(here) == here,
        tunnel_remote(here) == here,
        tunnel_local(here + seq![':'] + there) == here,
        tunnel_remote(here + seq![':'] + there) == there,
        tunnel_local(here + seq![':'] + there + seq![':'] + more) == here,
        tunnel_remote(here + seq![':'] + there + seq![':'] + more) == there,
{
    here.index_of_first_ensures(':');
    there.index_of_first_ensures(':');
    lemma_split_at_colon(here, there);
    lemma_split_at_colon(here, there + seq![':'] + more);
    lemma_split_at_colon(there, more);
    assert(here + seq![':'] + there + seq![':'] + more =~= here + seq![':'] + (there + seq![':']
        + more));
}

/// What stands before and after the first colon.
proof fn lemma_split_at_colon(head: Seq<char>, tail: Seq<char>)
    requires
        !head.contains(':'),
    ensures
        before_colon(head + seq![':'] + tail) == head,
        after_colon(head + seq![':'] + tail) == tail,
{
    let text = head + seq![':'] + tail;
    text.index_of_first_ensures(':');
    assert(text[head.len() as int] == ':');
    assert(text.contains(':'));
    let i = text.index_of_first(':')->0;
    if i < head.len() {
        assert(head[i] == ':');
    }
    assert(before_colon(text) =~= head);
    assert(after_colon(text) =~= tail);
}

/// The hooks that stay are those that are not done, in their order; with none done all stay,
/// with all done none does.
pub proof fn law_hooks_stay_until_done(hooks: Seq<u64>, done: Seq<bool>)
    requires
        done.len() == hooks.len(),
    ensures
        unfinished(hooks, done).len() <= hooks.len(),
        (forall|i: int| 0 <= i < done.len() ==> !#[trigger] done[i]) ==> unfinished(hooks, done)
            == hooks,
        (forall|i: int| 0 <= i < done.len() ==> #[trigger] done[i]) ==> unfinished(
            hooks,
            done,
        ).len() == 0,
        forall|i: int|
            0 <= i < hooks.len() && !done[i] ==> unfinished(hooks, done).contains(
                #[trigger] hooks[i],
            ),
    decreases hooks.len(),
{
    if hooks.len() > 0 {
        let before = unfinished(hooks.drop_last(), done.drop_last());
        law_hooks_stay_until_done(hooks.drop_last(), done.drop_last());
        assert(hooks.drop_last().push(hooks.last()) =~= hooks);
        assert(done.last() == done[done.len() - 1]);
        if forall|i: int| 0 <= i < done.len() ==> !#[trigger] done[i] {
            assert forall|i: int| 0 <= i < done.drop_last().len() implies !#[trigger]
                done.drop_last()[i] by {
                assert(done.drop_last()[i] == done[i]);
            }
        }
        if forall|i: int| 0 <= i < done.len() ==> #[trigger] done[i] {
            assert forall|i: int| 0 <= i < done.drop_last().len() implies #[trigger]
                done.drop_last()[i] by {
                assert(done.drop_last()[i] == done[i]);
            }
        }
        assert forall|i: int| 0 <= i < hooks.len() && !done[i] implies unfinished(
            hooks,
            done,
        ).contains(#[trigger] hooks[i]) by {
            let now = unfinished(hooks, done);
            if i < hooks.len() - 1 {
                assert(hooks.drop_last()[i] == hooks[i] && done.drop_last()[i] == done[i]);
                let k = choose|k: int| 0 <= k < before.len() && before[k] == hooks[i];
                assert(now[k] == hooks[i]);
            } else {
                assert(now[before.len() as int] == hooks[i]);
            }
        }
    }
}

/// Standard input is taken in pieces of limited size, never more than there is; and once its end
/// was forwarded, nothing is taken any more.
pub proof fn law_stdin_pieces(oxy: Oxy, space: bool, closed: bool, available: usize)
    ensures
        oxy.stdin_share(space, closed, available) matches Some(amount) ==> amount <= STDIN_CHUNK
            && amount <= available && (amount == 0 ==> closed),
        !oxy.stdin_open ==> oxy.stdin_share(space, closed, available) is None,
{
}

/// Whether a plan runs no hook.
pub open spec fn runs_no_hook(actions: Seq<ActionView>) -> bool {
    forall|i: int| 0 <= i < actions.len() ==> !(#[trigger] actions[i] is RunHook)
}

/// Batched commands run no hook.
proof fn lemma_batched_runs_no_hook(lines: Seq<Seq<char>>)
    ensures
        runs_no_hook(batched(lines)),
    decreases lines.len(),
{
    if lines.len() > 0 {
        lemma_batched_runs_no_hook(lines.drop_last());
    }
}

/// The hooks that wait for the key exchange are run in the last step, behind everything else, each
/// as often as it was put in, in that order, and are then forgotten; no other step runs a hook.
pub proof fn law_hooks_run_once(
    before: Oxy,
    step: PostAuthStep,
    arguments: Arguments,
    terminal: Terminal,
    turn: PostAuthTurn,
    after: Oxy,
)
    requires
        before.took_post_auth(step, arguments, terminal, turn, after),
    ensures
        step != PostAuthStep::Hooks ==> runs_no_hook(plan(turn.actions@)) && after.post_auth_hooks
            == before.post_auth_hooks,
        step == PostAuthStep::Hooks ==> {
            &&& turn.next is None
            &&& runs_no_hook(plan(turn.actions@).take(1))
            &&& plan(turn.actions@).skip(1) == hook_calls(before.post_auth_hooks@)
            &&& after.post_auth_hooks@.len() == 0
        },
{
    lemma_batched_runs_no_hook(texts(arguments.batched_metacommands@));
    assert(runs_no_hook(arguments.batch()));
    if step == PostAuthStep::Hooks {
        assert(plan(turn.actions@).skip(1) =~= hook_calls(before.post_auth_hooks@));
    }
}

/// Whether the `i`-th turn is that of the `i`-th step.
pub open spec fn took_turn(
    states: Seq<Oxy>,
    steps: Seq<PostAuthStep>,
    turns: Seq<PostAuthTurn>,
    arguments: Arguments,
    terminal: Terminal,
    i: int,
) -> bool {
    states[i].took_post_auth(steps[i], arguments, terminal, turns[i], states[i + 1])
}

/// The steps after a key exchange that were taken one after another, with nothing else happening
/// in between.
pub open spec fn post_auth_run(
    states: Seq<Oxy>,
    steps: Seq<PostAuthStep>,
    turns: Seq<PostAuthTurn>,
    arguments: Arguments,
    terminal: Terminal,
) -> bool {
    &&& steps.len() == turns.len() > 0
    &&& states.len() == turns.len() + 1
    &&& steps[0] == PostAuthStep::Queue
    &&& forall|i: int|
        0 <= i < turns.len() ==> #[trigger] took_turn(states, steps, turns, arguments, terminal, i)
    &&& forall|i: int|
        0 <= i < turns.len() - 1 ==> (#[trigger] turns[i]).next == Some(steps[i + 1])
    &&& turns.last().next is None
}

/// The actions of all turns, one after the other.
pub open spec fn all_actions(turns: Seq<PostAuthTurn>) -> Seq<ActionView>
    decreases turns.len(),
{
    if turns.len() == 0 {
        Seq::empty()
    } else {
        all_actions(turns.drop_last()) + plan(turns.last().actions@)
    }
}

/// All that follows the key exchange, where nothing else happens in between.
pub open spec fn post_auth_plan(oxy: Oxy, arguments: Arguments, terminal: Terminal) -> Seq<
    ActionView,
> {
    let hooks = seq![ActionView::RegisterSignalHandler] + hook_calls(oxy.post_auth_hooks@);
    let first = next_command(oxy.metacommand_queue@) + oxy.compression_request(arguments);
    if oxy.is_server {
        hooks
    } else if oxy.is_daemon {
        first + hooks
    } else if stops(arguments.batch()) {
        first + arguments.batch()
    } else {
        first + arguments.batch() + attachment(arguments, terminal) + (if terminal.interactive {
            seq![ActionView::CreateUi]
        } else {
            Seq::empty()
        }) + hooks
    }
}

/// What follows the key exchange: on a client the queued command, the compression, the command
/// line, the terminal and the terminal UI; then the signal handler and the hooks. A daemon skips
/// what the command line and the terminal would bring, a server all but the last, and a batched
/// command that cannot be split into words ends it.
pub proof fn law_post_auth_in_full(
    states: Seq<Oxy>,
    steps: Seq<PostAuthStep>,
    turns: Seq<PostAuthTurn>,
    arguments: Arguments,
    terminal: Terminal,
)
    requires
        post_auth_run(states, steps, turns, arguments, terminal),
    ensures
        all_actions(turns) == post_auth_plan(states[0], arguments, terminal),
{
    let oxy = states[0];
    let wanted = post_auth_plan(oxy, arguments, terminal);
    assert(took_turn(states, steps, turns, arguments, terminal, 0));
    assert(turns.len() > 1) by {
        if turns.len() == 1 {
            assert(turns.last() == turns[0]);
        }
    }
    assert(turns[0].next == Some(steps[1]));
    assert(took_turn(states, steps, turns, arguments, terminal, 1));
    if oxy.is_server {
        lemma_no_turn_behind_the_last(turns, steps, 1);
        lemma_all_actions_of_two(turns);
        assert(all_actions(turns) =~= wanted);
    } else if oxy.is_daemon {
        lemma_turn_follows(turns, steps, 1);
        assert(took_turn(states, steps, turns, arguments, terminal, 2));
        lemma_no_turn_behind_the_last(turns, steps, 2);
        lemma_all_actions_of_two(turns.take(2));
        assert(turns.drop_last() =~= turns.take(2));
        assert(all_actions(turns) =~= wanted);
    } else if stops(arguments.batch()) {
        lemma_no_turn_behind_the_last(turns, steps, 1);
        lemma_all_actions_of_two(turns);
        assert(all_actions(turns) =~= wanted);
    } else {
        lemma_turn_follows(turns, steps, 1);
        assert(took_turn(states, steps, turns, arguments, terminal, 2));
        lemma_turn_follows(turns, steps, 2);
        assert(took_turn(states, steps, turns, arguments, terminal, 3));
        lemma_turn_follows(turns, steps, 3);
        assert(took_turn(states, steps, turns, arguments, terminal, 4));
        lemma_no_turn_behind_the_last(turns, steps, 4);
        lemma_all_actions_of_two(turns.take(2));
        assert(turns.take(3).drop_last() =~= turns.take(2));
        assert(turns.take(4).drop_last() =~= turns.take(3));
        assert(turns.drop_last() =~= turns.take(4));
        assert(all_actions(turns.take(3)) == all_actions(turns.take(2)) + plan(turns[2].actions@));
        assert(all_actions(turns.take(4)) == all_actions(turns.take(3)) + plan(turns[3].actions@));
        assert(all_actions(turns) == all_actions(turns.take(4)) + plan(turns[4].actions@));
        assert(all_actions(turns) =~= wanted);
    }
}

/// A turn that names a next step is followed by another turn.
proof fn lemma_turn_follows(turns: Seq<PostAuthTurn>, steps: Seq<PostAuthStep>, i: int)
    requires
        0 <= i < turns.len(),
        turns[i].next is Some,
        turns.last().next is None,
        forall|k: int|
            0 <= k < turns.len() - 1 ==> (#[trigger] turns[k]).next == Some(steps[k + 1]),
    ensures
        i + 1 < turns.len(),
        turns[i].next == Some(steps[i + 1]),
{
    if i + 1 == turns.len() {
        assert(turns.last() == turns[i]);
    }
}

/// A turn that names no next step is the last.
proof fn lemma_no_turn_behind_the_last(
    turns: Seq<PostAuthTurn>,
    steps: Seq<PostAuthStep>,
    i: int,
)
    requires
        0 <= i < turns.len(),
        turns[i].next is None,
        forall|k: int|
            0 <= k < turns.len() - 1 ==> (#[trigger] turns[k]).next == Some(steps[k + 1]),
    ensures
        turns.len() == i + 1,
{
}

/// The actions of two turns.
proof fn lemma_all_actions_of_two(turns: Seq<PostAuthTurn>)
    requires
        turns.len() == 2,
    ensures
        all_actions(turns) == plan(turns[0].actions@) + plan(turns[1].actions@),
{
    reveal_with_fuel(all_actions, 3);
    assert(all_actions(turns) =~= plan(turns[0].actions@) + plan(turns[1].actions@));
}

/// What can happen to a session that has been started: it sends, it takes in a chunk, it goes one
/// step through the news of the transport, or one step through what follows the key exchange.
pub enum Happening {
    Sends { data: Seq<u8>, outgoing: Outgoing },
    Receives { chunk: Seq<u8>, incoming: Incoming },
    Takes { event: TransportEvent, turn: TransportTurn },
    FollowsKeyExchange {
        step: PostAuthStep,
        arguments: Arguments,
        terminal: Terminal,
        turn: PostAuthTurn,
    },
}

impl Happening {
    /// Whether this leads from one state to the other.
    pub open spec fn leads(self, before: Oxy, after: Oxy) -> bool {
        match self {
            Happening::Sends { data, outgoing } => before.sent(data, outgoing, after),
            Happening::Receives { chunk, incoming } => before.received(chunk, incoming, after),
            Happening::Takes { event, turn } => before.took(event, turn, after),
            Happening::FollowsKeyExchange { step, arguments, terminal, turn } =>
                before.took_post_auth(step, arguments, terminal, turn, after),
        }
    }
}

/// A session is started once: after it was, whatever happens to it, it can never be started again,
/// so neither is the key advertised or the handshake taken up a second time.
pub proof fn law_launches_once(
    before: Oxy,
    actions: Seq<ActionView>,
    states: Seq<Oxy>,
    happenings: Seq<Happening>,
    n: int,
)
    requires
        states.len() == happenings.len() + 1,
        before.launches(actions, states[0]),
        forall|i: int|
            0 <= i < happenings.len() ==> (#[trigger] happenings[i]).leads(
                states[i],
                states[i + 1],
            ),
        0 <= n < states.len(),
    ensures
        !states[n].can_launch(),
        forall|again: Seq<ActionView>, after: Oxy| !#[trigger] states[n].launches(again, after),
    decreases n,
{
    if n > 0 {
        law_launches_once(before, actions, states, happenings, n - 1);
        assert(happenings[n - 1].leads(states[n - 1], states[n]));
    }
}

/// A round with files never ends the program.
proof fn lemma_service_goes_on(
    ui: bool,
    transfers: Seq<TransferOut>,
    reads: Seq<Seq<u8>>,
    n: nat,
)
    ensures
        !stops(service_all(ui, transfers, reads, n)),
    decreases n,
{
    if n > 0 {
        let last = transfers[n - 1].service(ui, reads[n - 1]).actions;
        assert(last.len() > 0 && !(last.last() is Stop));
        assert(service_all(ui, transfers, reads, n).last() == last.last());
    }
}

/// Where a step through the news of the transport ends the program, nothing more is wanted.
pub proof fn law_stop_ends_the_turn(
    before: Oxy,
    event: TransportEvent,
    turn: TransportTurn,
    after: Oxy,
)
    requires
        before.can_take(event),
        before.took(event, turn, after),
        stops(plan(turn.actions@)),
    ensures
        turn.next == TransportNext::Rest,
{
    if let TransportEvent::Files { has_write_space, reads } = event {
        let transfers = before.transfers_out@;
        lemma_service_goes_on(
            before.ui,
            transfers,
            contents(reads@),
            transfers.len(),
        );
    }
}

} // verus!
