//! What is sent arrives: once, whole, in order and under the same number.

use vstd::prelude::*;

use crate::action::Fault;
use crate::channel::{
    pack, seal, seal_all, unpack, unseal, Arrival, Incoming, Outgoing, Sealed, SEALED_FRAME_SIZE,
};
use crate::frame::{
    carried, contents, frame_count, frame_share, frames_of, lemma_frame_size, FRAME_CAPACITY,
};
use crate::state::Oxy;

verus! {

/// Messages that were opened one after another, up to the first failure.
pub struct Opened {
    pub payloads: Seq<Seq<u8>>,
    pub fault: Option<Fault>,
    pub state: Seq<u8>,
}

/// Opens messages one after another, up to the first failure.
pub open spec fn unseal_all(state: Seq<u8>, messages: Seq<Seq<u8>>) -> Opened
    decreases messages.len(),
{
    if messages.len() == 0 {
        Opened { payloads: Seq::empty(), fault: None, state }
    } else {
        let before = unseal_all(state, messages.drop_last());
        if before.fault is Some {
            before
        } else {
            let (last, after) = unseal(before.state, messages.last());
            match last {
                Ok(payload) => Opened {
                    payloads: before.payloads.push(payload),
                    fault: None,
                    state: after,
                },
                Err(fault) => Opened {
                    payloads: before.payloads,
                    fault: Some(fault),
                    state: after,
                },
            }
        }
    }
}

/// Whether a session in the state `receiver` recovers these payloads from what a session in the
/// state `sender` makes of them, if that succeeds.
pub open spec fn recovers(sender: Seq<u8>, receiver: Seq<u8>, payloads: Seq<Seq<u8>>) -> bool {
    let sealed = seal_all(sender, payloads);
    sealed.fault is None ==> {
        let opened = unseal_all(receiver, sealed.frames);
        opened.fault is None && opened.payloads == payloads
    }
}

/// Whether a session in the state `receiver` recovers whatever a session in the state `sender`
/// seals, as the two ends of one Noise session do for each direction.
pub open spec fn in_step(sender: Seq<u8>, receiver: Seq<u8>) -> bool {
    forall|payloads: Seq<Seq<u8>>| #[trigger] recovers(sender, receiver, payloads)
}

/// Sealing in two goes.
proof fn lemma_seal_concat(state: Seq<u8>, first: Seq<Seq<u8>>, second: Seq<Seq<u8>>)
    requires
        seal_all(state, first).fault is None,
    ensures
        ({
            let one = seal_all(state, first);
            let two = seal_all(one.state, second);
            seal_all(state, first + second) == (Sealed {
                frames: one.frames + two.frames,
                fault: two.fault,
                state: two.state,
            })
        }),
    decreases second.len(),
{
    let one = seal_all(state, first);
    let two = seal_all(one.state, second);
    if second.len() == 0 {
        assert(first + second =~= first);
        assert(one.frames + two.frames =~= one.frames);
    } else {
        lemma_seal_concat(state, first, second.drop_last());
        assert((first + second).drop_last() =~= first + second.drop_last());
        let before = seal_all(one.state, second.drop_last());
        if two.fault is None {
            assert(one.frames + two.frames =~= (one.frames + before.frames).push(
                two.frames.last(),
            ));
        }
    }
}

/// Opening in two goes.
proof fn lemma_unseal_concat(state: Seq<u8>, first: Seq<Seq<u8>>, second: Seq<Seq<u8>>)
    requires
        unseal_all(state, first).fault is None,
    ensures
        ({
            let one = unseal_all(state, first);
            let two = unseal_all(one.state, second);
            unseal_all(state, first + second) == (Opened {
                payloads: one.payloads + two.payloads,
                fault: two.fault,
                state: two.state,
            })
        }),
    decreases second.len(),
{
    let one = unseal_all(state, first);
    let two = unseal_all(one.state, second);
    if second.len() == 0 {
        assert(first + second =~= first);
        assert(one.payloads + two.payloads =~= one.payloads);
    } else {
        lemma_unseal_concat(state, first, second.drop_last());
        assert((first + second).drop_last() =~= first + second.drop_last());
        let before = unseal_all(one.state, second.drop_last());
        if two.fault is None {
            assert(one.payloads + two.payloads =~= (one.payloads + before.payloads).push(
                two.payloads.last(),
            ));
        }
    }
}

/// A run without failure: one message for each payload, and the same for each part of it.
proof fn lemma_seal_prefix(state: Seq<u8>, payloads: Seq<Seq<u8>>, n: int)
    requires
        0 <= n <= payloads.len(),
        seal_all(state, payloads).fault is None,
    ensures
        seal_all(state, payloads).frames.len() == payloads.len(),
        seal_all(state, payloads.take(n)).fault is None,
        seal_all(state, payloads.take(n)).frames == seal_all(state, payloads).frames.take(n),
    decreases payloads.len(),
{
    let frames = seal_all(state, payloads).frames;
    if payloads.len() > 0 {
        let shorter = payloads.drop_last();
        if n < payloads.len() {
            lemma_seal_prefix(state, shorter, n);
            assert(shorter.take(n) =~= payloads.take(n));
            assert(frames.take(n) =~= seal_all(state, shorter).frames.take(n));
        } else {
            lemma_seal_prefix(state, shorter, n - 1);
            assert(payloads.take(n) =~= payloads);
            assert(frames.take(n) =~= frames);
        }
    } else {
        assert(payloads.take(n) =~= payloads);
        assert(frames.take(n) =~= frames);
    }
}

/// Two sessions that are in step stay so: after any number of payloads were sealed by the one
/// and opened by the other, they are in step again.
pub proof fn law_stays_in_step(sender: Seq<u8>, receiver: Seq<u8>, payloads: Seq<Seq<u8>>)
    requires
        in_step(sender, receiver),
        seal_all(sender, payloads).fault is None,
    ensures
        in_step(
            seal_all(sender, payloads).state,
            unseal_all(receiver, seal_all(sender, payloads).frames).state,
        ),
{
    let one = seal_all(sender, payloads);
    let opened = unseal_all(receiver, one.frames);
    assert(recovers(sender, receiver, payloads));
    assert forall|more: Seq<Seq<u8>>| #[trigger] recovers(one.state, opened.state, more) by {
        let two = seal_all(one.state, more);
        if two.fault is None {
            lemma_seal_concat(sender, payloads, more);
            assert(recovers(sender, receiver, payloads + more));
            lemma_unseal_concat(receiver, one.frames, two.frames);
            let rest = unseal_all(opened.state, two.frames);
            assert(payloads + rest.payloads == payloads + more);
            assert(rest.payloads =~= (payloads + rest.payloads).skip(payloads.len() as int));
            assert(more =~= (payloads + more).skip(payloads.len() as int));
        }
    }
}

/// The `n`-th message of a run that is recovered opens to the `n`-th payload.
proof fn lemma_step_recovers(sender: Seq<u8>, receiver: Seq<u8>, payloads: Seq<Seq<u8>>, n: int)
    requires
        in_step(sender, receiver),
        seal_all(sender, payloads).fault is None,
        0 <= n < payloads.len(),
    ensures
        seal_all(sender, payloads).frames.len() == payloads.len(),
        ({
            let frames = seal_all(sender, payloads).frames;
            let before = unseal_all(receiver, frames.take(n));
            let after = unseal_all(receiver, frames.take(n + 1));
            unseal(before.state, frames[n]) == (Ok::<Seq<u8>, Fault>(payloads[n]), after.state)
        }),
{
    let frames = seal_all(sender, payloads).frames;
    lemma_seal_prefix(sender, payloads, n);
    lemma_seal_prefix(sender, payloads, n + 1);
    assert(recovers(sender, receiver, payloads.take(n)));
    assert(recovers(sender, receiver, payloads.take(n + 1)));
    assert(frames.take(n + 1).drop_last() =~= frames.take(n));
    assert(frames.take(n + 1).last() == frames[n]);
    let after = unseal_all(receiver, frames.take(n + 1));
    assert(after.payloads.last() == payloads[n]);
}

/// The first `n` frames of a message carry its first bytes.
proof fn lemma_carried_prefix(data: Seq<u8>, n: int)
    requires
        0 <= n < frames_of(data).len(),
    ensures
        n * FRAME_CAPACITY <= data.len(),
        data.take(n * FRAME_CAPACITY) + frame_share(data, n) == (if n < frames_of(data).len() - 1 {
            data.take((n + 1) * FRAME_CAPACITY)
        } else {
            data
        }),
{
    let whole = if n < frames_of(data).len() - 1 {
        data.take((n + 1) * FRAME_CAPACITY)
    } else {
        data
    };
    assert(data.take(n * FRAME_CAPACITY) + frame_share(data, n) =~= whole);
}

/// The states and the outcomes of a receiver that takes in chunks one by one.
pub open spec fn takes_in(
    states: Seq<Oxy>,
    chunks: Seq<Seq<u8>>,
    outcomes: Seq<Incoming>,
) -> bool {
    &&& states.len() == chunks.len() + 1
    &&& outcomes.len() == chunks.len()
    &&& forall|i: int|
        0 <= i < chunks.len() ==> #[trigger] states[i].received(
            chunks[i],
            outcomes[i],
            states[i + 1],
        )
}

/// Where the receiver stands after the first `n` frames of a message.
proof fn lemma_reception(
    sender: Seq<u8>,
    packed: Seq<u8>,
    states: Seq<Oxy>,
    outcomes: Seq<Incoming>,
    n: int,
)
    requires
        in_step(sender, states[0].receiving_state()),
        seal_all(sender, frames_of(packed)).fault is None,
        takes_in(states, seal_all(sender, frames_of(packed)).frames, outcomes),
        states[0].inbound_cleartext_buffer@.len() == 0,
        unpack(packed, states[0].inbound_compression) is Some,
        0 <= n <= frames_of(packed).len(),
    ensures
        ({
            let frames = seal_all(sender, frames_of(packed)).frames;
            let receiver = states[0];
            let last = frames_of(packed).len() - 1;
            &&& frames.len() == frames_of(packed).len()
            &&& states[n].receiving_state() == unseal_all(
                receiver.receiving_state(),
                frames.take(n),
            ).state
            &&& states[n].inbound_compression == receiver.inbound_compression
            &&& n <= last ==> {
                &&& states[n].inbound_cleartext_buffer@ == packed.take(n * FRAME_CAPACITY)
                &&& states[n].incoming_ticker == receiver.incoming_ticker
            }
            &&& 0 < n ==> outcomes[n - 1].arrival() == (if n <= last {
                Arrival::Incomplete
            } else {
                Arrival::Complete(unpack(packed, receiver.inbound_compression)->0)
            })
            &&& 0 < n && n == last + 1 ==> states[n].inbound_cleartext_buffer@.len() == 0
        }),
    decreases n,
{
    let payloads = frames_of(packed);
    let frames = seal_all(sender, payloads).frames;
    let receiver = states[0];
    lemma_seal_prefix(sender, payloads, 0);
    if n == 0 {
        assert(frames.take(0) =~= Seq::<Seq<u8>>::empty());
        assert(packed.take(0) =~= Seq::<u8>::empty());
        assert(states[0].inbound_cleartext_buffer@ =~= Seq::<u8>::empty());
    } else {
        let i = n - 1;
        lemma_reception(sender, packed, states, outcomes, i);
        lemma_step_recovers(sender, receiver.receiving_state(), payloads, i);
        assert(states[i].received(frames[i], outcomes[i], states[i + 1]));
        lemma_frame_size(packed, i);
        lemma_carried_prefix(packed, i);
        assert(packed.take(i * FRAME_CAPACITY) + carried(payloads[i]) == (if n
            < payloads.len() {
            packed.take(n * FRAME_CAPACITY)
        } else {
            packed
        }));
    }
}

/// What is sent arrives.
///
/// A message that was sent without fault, and whose frames the other end takes in one by one
/// while it has nothing else under way, comes out of the last frame, whole, and of no earlier
/// one, provided that the two sessions are in step and agree on compression, and that the message
/// is not empty, unless it is compressed. Afterwards the two are in step again, the receiver has
/// nothing left under way, and where the two had counted alike, the message has the same number on
/// both sides and they count alike again.
pub proof fn law_delivery(
    sender: Oxy,
    serialized: Seq<u8>,
    outgoing: Outgoing,
    sender_after: Oxy,
    states: Seq<Oxy>,
    outcomes: Seq<Incoming>,
)
    requires
        sender.encrypted(),
        sender.sent(serialized, outgoing, sender_after),
        outgoing.fault is None,
        serialized.len() > 0 || sender.outbound_compression,
        takes_in(states, contents(outgoing.frames@), outcomes),
        in_step(sender.sending_state(), states[0].receiving_state()),
        states[0].inbound_cleartext_buffer@.len() == 0,
        states[0].inbound_compression == sender.outbound_compression,
    ensures
        ({
            let n = outgoing.frames@.len() as int;
            let receiver = states[0];
            let receiver_after = states[n];
            &&& n > 0
            &&& forall|i: int|
                0 <= i < n - 1 ==> (#[trigger] outcomes[i]).arrival() == Arrival::Incomplete
            &&& outcomes[n - 1].arrival() == Arrival::Complete(serialized)
            &&& outcomes[n - 1] matches Incoming::Message { message_number, .. }
                && message_number == receiver.incoming_ticker
            &&& receiver_after.inbound_cleartext_buffer@.len() == 0
            &&& receiver_after.inbound_compression == receiver.inbound_compression
            &&& receiver_after.incoming_ticker == receiver.incoming_ticker + 1
            &&& in_step(sender_after.sending_state(), receiver_after.receiving_state())
            &&& sender.outgoing_ticker == receiver.incoming_ticker ==> {
                &&& outcomes[n - 1]->message_number == outgoing.message_number
                &&& sender_after.outgoing_ticker == receiver_after.incoming_ticker
            }
        }),
{
    let packed = pack(serialized, sender.outbound_compression);
    let payloads = frames_of(packed);
    let sealed = seal_all(sender.sending_state(), payloads);
    let n = outgoing.frames@.len() as int;
    lemma_seal_prefix(sender.sending_state(), payloads, 0);
    lemma_reception(sender.sending_state(), packed, states, outcomes, n);
    lemma_reception(sender.sending_state(), packed, states, outcomes, n - 1);
    assert(states[n - 1].received(sealed.frames[n - 1], outcomes[n - 1], states[n]));
    assert forall|i: int| 0 <= i < n - 1 implies (#[trigger] outcomes[i]).arrival()
        == Arrival::Incomplete by {
        lemma_reception(sender.sending_state(), packed, states, outcomes, i + 1);
    }
    assert(sealed.frames.take(n) =~= sealed.frames);
    law_stays_in_step(sender.sending_state(), states[0].receiving_state(), payloads);
}

/// A message takes a frame unless it is empty, and an empty one takes none: the peer never hears
/// of it.
pub proof fn law_empty_messages_vanish(data: Seq<u8>)
    ensures
        frames_of(data).len() == 0 <==> data.len() == 0,
        frames_of(data).len() == frame_count(data.len()),
{
}

/// Whether two states are the same to whatever is sent.
pub open spec fn same_outbound(one: Oxy, other: Oxy) -> bool {
    &&& one.encrypted() == other.encrypted()
    &&& one.sending_state() == other.sending_state()
    &&& one.outgoing_ticker == other.outgoing_ticker
    &&& one.outbound_compression == other.outbound_compression
}

/// Whether two states are the same to whatever is received.
pub open spec fn same_inbound(one: Oxy, other: Oxy) -> bool {
    &&& one.receiving_state() == other.receiving_state()
    &&& one.incoming_ticker == other.incoming_ticker
    &&& one.inbound_compression == other.inbound_compression
    &&& one.inbound_cleartext_buffer@ == other.inbound_cleartext_buffer@
}

/// Sending leaves alone all that receiving depends on.
pub proof fn law_sending_leaves_receiving(
    before: Oxy,
    data: Seq<u8>,
    outgoing: Outgoing,
    after: Oxy,
)
    requires
        before.in_transport_mode(),
        before.sent(data, outgoing, after),
    ensures
        after.in_transport_mode(),
        same_inbound(before, after),
{
}

/// Receiving leaves alone all that sending depends on.
pub proof fn law_receiving_leaves_sending(
    before: Oxy,
    chunk: Seq<u8>,
    incoming: Incoming,
    after: Oxy,
)
    requires
        before.in_transport_mode(),
        before.encrypted(),
        before.received(chunk, incoming, after),
    ensures
        after.in_transport_mode(),
        same_outbound(before, after),
{
}

/// One message that was sent, and how the other end took it in.
pub struct Passage {
    pub serialized: Seq<u8>,
    pub sender: Oxy,
    pub outgoing: Outgoing,
    pub sender_after: Oxy,
    pub states: Seq<Oxy>,
    pub outcomes: Seq<Incoming>,
}

impl Passage {
    /// Whether the message was sent without fault, and each of its frames taken in.
    pub open spec fn complete(self) -> bool {
        &&& self.sender.sent(self.serialized, self.outgoing, self.sender_after)
        &&& self.outgoing.fault is None
        &&& self.serialized.len() > 0 || self.sender.outbound_compression
        &&& takes_in(self.states, contents(self.outgoing.frames@), self.outcomes)
    }

    /// Whether the two ends are ready for it: the sessions are in step, nothing is under way, and
    /// the two agree on compression and on the number to come.
    pub open spec fn ready(self) -> bool {
        let receiver = self.states[0];
        &&& self.sender.encrypted()
        &&& in_step(self.sender.sending_state(), receiver.receiving_state())
        &&& receiver.inbound_cleartext_buffer@.len() == 0
        &&& receiver.inbound_compression == self.sender.outbound_compression
        &&& receiver.incoming_ticker == self.sender.outgoing_ticker
    }

    /// Whether the message came out at the end, under the number that it was sent with.
    pub open spec fn delivered(self) -> bool {
        &&& self.outcomes.last().arrival() == Arrival::Complete(self.serialized)
        &&& self.outcomes.last() matches Incoming::Message { message_number, .. }
            && message_number == self.outgoing.message_number
    }

    /// Whether `next` goes on where this one ended, whatever the two ends did in between.
    pub open spec fn followed_by(self, next: Passage) -> bool {
        &&& same_outbound(self.sender_after, next.sender)
        &&& same_inbound(self.states.last(), next.states[0])
    }
}

/// Messages arrive in the order in which they were sent, each under the number that it was sent
/// with, and the numbers follow on each other. What the two ends do between two messages does not
/// matter, as long as it leaves this direction alone, as traffic in the other direction does.
pub proof fn law_delivery_in_order(passages: Seq<Passage>, n: int)
    requires
        0 <= n < passages.len(),
        forall|i: int| 0 <= i < passages.len() ==> (#[trigger] passages[i]).complete(),
        forall|i: int|
            0 <= i < passages.len() - 1 ==> (#[trigger] passages[i]).followed_by(passages[i + 1]),
        passages[0].ready(),
    ensures
        passages[n].ready(),
        passages[n].delivered(),
        passages[n].outgoing.message_number == passages[0].outgoing.message_number + n,
    decreases n,
{
    let now = passages[n];
    if n > 0 {
        let before = passages[n - 1];
        law_delivery_in_order(passages, n - 1);
        assert(before.complete() && before.followed_by(now));
        law_delivery(
            before.sender,
            before.serialized,
            before.outgoing,
            before.sender_after,
            before.states,
            before.outcomes,
        );
    }
    assert(now.complete());
    law_delivery(
        now.sender,
        now.serialized,
        now.outgoing,
        now.sender_after,
        now.states,
        now.outcomes,
    );
}

/// What one end seals, the other opens: where payloads were sealed one after another, and the
/// messages opened in the same order, each once, each message opens to the very payload it was
/// made of.
pub proof fn law_payloads_are_recovered(
    payloads: Seq<Seq<u8>>,
    messages: Seq<Seq<u8>>,
    opened: Seq<Result<Seq<u8>, Fault>>,
    senders: Seq<Seq<u8>>,
    receivers: Seq<Seq<u8>>,
    n: int,
)
    requires
        messages.len() == opened.len() == payloads.len(),
        senders.len() == receivers.len() == payloads.len() + 1,
        forall|i: int|
            0 <= i < payloads.len() ==> seals_to(
                senders[i],
                #[trigger] payloads[i],
                messages[i],
                senders[i + 1],
            ),
        forall|i: int|
            0 <= i < payloads.len() ==> unseals_to(
                receivers[i],
                #[trigger] messages[i],
                opened[i],
                receivers[i + 1],
            ),
        in_step(senders[0], receivers[0]),
        0 <= n < payloads.len(),
    ensures
        opened[n] == Ok::<Seq<u8>, Fault>(payloads[n]),
{
    lemma_sealing_run(payloads, messages, senders, n + 1);
    let run = payloads.take(n + 1);
    lemma_step_recovers(senders[0], receivers[0], run, n);
    lemma_opening_run(payloads, messages, opened, senders, receivers, n);
    assert(messages.take(n + 1).take(n) =~= messages.take(n));
    assert(messages[n] == messages.take(n + 1)[n]);
    assert(unseals_to(receivers[n], messages[n], opened[n], receivers[n + 1]));
    assert(payloads[n] == run[n]);
}

/// Whether sealing a payload gives this message, and leaves the session in the state `after`.
pub open spec fn seals_to(
    before: Seq<u8>,
    payload: Seq<u8>,
    message: Seq<u8>,
    after: Seq<u8>,
) -> bool {
    seal(before, payload) == (Ok::<Seq<u8>, Fault>(message), after)
}

/// Whether opening a message gives this, and leaves the session in the state `after`.
pub open spec fn unseals_to(
    before: Seq<u8>,
    message: Seq<u8>,
    opened: Result<Seq<u8>, Fault>,
    after: Seq<u8>,
) -> bool {
    unseal(before, message) == (opened, after)
}

/// Sealing step by step is sealing in one go.
proof fn lemma_sealing_run(
    payloads: Seq<Seq<u8>>,
    messages: Seq<Seq<u8>>,
    senders: Seq<Seq<u8>>,
    n: int,
)
    requires
        messages.len() == payloads.len(),
        senders.len() == payloads.len() + 1,
        forall|i: int|
            0 <= i < payloads.len() ==> seals_to(
                senders[i],
                #[trigger] payloads[i],
                messages[i],
                senders[i + 1],
            ),
        0 <= n <= payloads.len(),
    ensures
        seal_all(senders[0], payloads.take(n)) == (Sealed {
            frames: messages.take(n),
            fault: None,
            state: senders[n],
        }),
    decreases n,
{
    if n == 0 {
        assert(messages.take(0) =~= Seq::<Seq<u8>>::empty());
    } else {
        lemma_sealing_run(payloads, messages, senders, n - 1);
        assert(payloads.take(n).drop_last() =~= payloads.take(n - 1));
        assert(payloads.take(n).last() == payloads[n - 1]);
        assert(messages.take(n) =~= messages.take(n - 1).push(messages[n - 1]));
    }
}

/// Opening step by step is opening in one go, as far as it succeeds.
proof fn lemma_opening_run(
    payloads: Seq<Seq<u8>>,
    messages: Seq<Seq<u8>>,
    opened: Seq<Result<Seq<u8>, Fault>>,
    senders: Seq<Seq<u8>>,
    receivers: Seq<Seq<u8>>,
    n: int,
)
    requires
        messages.len() == opened.len() == payloads.len(),
        senders.len() == receivers.len() == payloads.len() + 1,
        forall|i: int|
            0 <= i < payloads.len() ==> seals_to(
                senders[i],
                #[trigger] payloads[i],
                messages[i],
                senders[i + 1],
            ),
        forall|i: int|
            0 <= i < payloads.len() ==> unseals_to(
                receivers[i],
                #[trigger] messages[i],
                opened[i],
                receivers[i + 1],
            ),
        in_step(senders[0], receivers[0]),
        0 <= n <= payloads.len(),
    ensures
        unseal_all(receivers[0], messages.take(n)).fault is None,
        unseal_all(receivers[0], messages.take(n)).state == receivers[n],
    decreases n,
{
    lemma_sealing_run(payloads, messages, senders, n);
    assert(recovers(senders[0], receivers[0], payloads.take(n)));
    if n > 0 {
        lemma_opening_run(payloads, messages, opened, senders, receivers, n - 1);
        assert(messages.take(n).drop_last() =~= messages.take(n - 1));
        assert(messages.take(n).last() == messages[n - 1]);
        assert(unseals_to(receivers[n - 1], messages[n - 1], opened[n - 1], receivers[n]));
    }
}

/// Between two chunks only full frames of one message are under way.
pub proof fn law_buffer_holds_full_frames(
    before: Oxy,
    chunk: Seq<u8>,
    incoming: Incoming,
    after: Oxy,
)
    requires
        before.received(chunk, incoming, after),
        before.inbound_cleartext_buffer@.len() % FRAME_CAPACITY as nat == 0,
    ensures
        after.inbound_cleartext_buffer@.len() % FRAME_CAPACITY as nat == 0,
{
}

/// Whether two chunks brought the same: the same message under the same number, or the same
/// fault, or nothing yet.
pub open spec fn same_incoming(one: Incoming, other: Incoming) -> bool {
    &&& one.arrival() == other.arrival()
    &&& one matches Incoming::Message { message_number, .. } ==> other
        == (Incoming::Message { bytes: other->bytes, message_number })
}

/// What a chunk brings depends on nothing but the chunk and the receiving side: two ends whose
/// receiving sides are alike get the same of the same chunk, and are alike again.
pub proof fn law_chunk_decides(
    one: Oxy,
    other: Oxy,
    chunk: Seq<u8>,
    incoming_one: Incoming,
    incoming_other: Incoming,
    after_one: Oxy,
    after_other: Oxy,
)
    requires
        same_inbound(one, other),
        one.received(chunk, incoming_one, after_one),
        other.received(chunk, incoming_other, after_other),
    ensures
        same_incoming(incoming_one, incoming_other),
        same_inbound(after_one, after_other),
{
}

/// The same holds of any number of chunks.
pub proof fn law_chunks_decide(
    chunks: Seq<Seq<u8>>,
    ones: Seq<Oxy>,
    outcomes_one: Seq<Incoming>,
    others: Seq<Oxy>,
    outcomes_other: Seq<Incoming>,
    n: int,
)
    requires
        takes_in(ones, chunks, outcomes_one),
        takes_in(others, chunks, outcomes_other),
        same_inbound(ones[0], others[0]),
        0 <= n <= chunks.len(),
    ensures
        same_inbound(ones[n], others[n]),
        forall|i: int|
            0 <= i < n ==> same_incoming(#[trigger] outcomes_one[i], outcomes_other[i]),
    decreases n,
{
    if n > 0 {
        law_chunks_decide(chunks, ones, outcomes_one, others, outcomes_other, n - 1);
        let i = n - 1;
        assert(ones[i].received(chunks[i], outcomes_one[i], ones[i + 1]));
        assert(others[i].received(chunks[i], outcomes_other[i], others[i + 1]));
        law_chunk_decides(
            ones[i],
            others[i],
            chunks[i],
            outcomes_one[i],
            outcomes_other[i],
            ones[n],
            others[n],
        );
    }
}

/// The chunks that can be taken from so many bytes, and the bytes that are left.
pub open spec fn cut(bytes: Seq<u8>) -> (Seq<Seq<u8>>, Seq<u8>) {
    let n = bytes.len() / SEALED_FRAME_SIZE as nat;
    (
        Seq::new(
            n,
            |i: int| bytes.subrange(i * SEALED_FRAME_SIZE, (i + 1) * SEALED_FRAME_SIZE),
        ),
        bytes.skip(n * SEALED_FRAME_SIZE),
    )
}

/// The chunks that are taken where bytes arrive in pieces, and as many chunks as there are are
/// taken after each; and the bytes that are left.
pub open spec fn cut_pieces(pieces: Seq<Seq<u8>>) -> (Seq<Seq<u8>>, Seq<u8>)
    decreases pieces.len(),
{
    if pieces.len() == 0 {
        (Seq::empty(), Seq::empty())
    } else {
        let before = cut_pieces(pieces.drop_last());
        let now = cut(before.1 + pieces.last());
        (before.0 + now.0, now.1)
    }
}

/// Cutting in two goes.
proof fn lemma_cut_concat(first: Seq<u8>, second: Seq<u8>)
    ensures
        cut(first + second) == (
            cut(first).0 + cut(cut(first).1 + second).0,
            cut(cut(first).1 + second).1,
        ),
{
    let size = SEALED_FRAME_SIZE as int;
    let all = first + second;
    let n = first.len() as int / size;
    let rest = cut(first).1 + second;
    assert(rest =~= all.skip(n * size));
    let m = rest.len() as int / size;
    assert(all.len() as int / size == n + m);
    assert((n + m) * size == n * size + m * size);
    assert forall|i: int| 0 <= i < n + m implies #[trigger] cut(all).0[i] == (cut(first).0 + cut(
        rest,
    ).0)[i] by {
        if i < n {
            assert(all.subrange(i * size, (i + 1) * size) =~= first.subrange(
                i * size,
                (i + 1) * size,
            ));
        } else {
            let k = i - n;
            assert(rest.subrange(k * size, (k + 1) * size) =~= all.subrange(
                i * size,
                (i + 1) * size,
            ));
        }
    }
    assert(cut(all).0 =~= cut(first).0 + cut(rest).0);
    assert(cut(all).1 =~= cut(rest).1);
}

/// How the bytes of the transport are cut on arrival does not show: in pieces of any size they
/// give the same chunks as all at once, and the same bytes are left.
pub proof fn law_pieces_do_not_show(pieces: Seq<Seq<u8>>)
    ensures
        cut_pieces(pieces) == cut(pieces.flatten()),
    decreases pieces.len(),
{
    pieces.lemma_flatten_and_flatten_alt_are_equivalent();
    if pieces.len() == 0 {
        assert(cut(Seq::<u8>::empty()).0 =~= Seq::<Seq<u8>>::empty());
        assert(cut(Seq::<u8>::empty()).1 =~= Seq::<u8>::empty());
    } else {
        law_pieces_do_not_show(pieces.drop_last());
        pieces.drop_last().lemma_flatten_and_flatten_alt_are_equivalent();
        lemma_cut_concat(pieces.drop_last().flatten_alt(), pieces.last());
    }
}

} // verus!
