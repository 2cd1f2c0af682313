//! What the channel owes to whoever sends and receives, in terms of what the session writes and
//! reads.

use vstd::prelude::*;

use crate::action::Fault;
use crate::channel::{
    absorb, lemma_seal_all_stops, pack, seal, seal_all, seal_drawn, unpack, unseal, Arrival,
    Incoming, Outgoing,
};
use crate::frame::{contents, frame_share, frames_of, lemma_frame_size};
use crate::noise::{
    noise_drawn, noise_finished, noise_read, noise_receiving_nonce, noise_sending_nonce,
    noise_stateless, noise_written, oversized, receiving_half, sending_half, Refusal,
};
use crate::state::Oxy;
use crate::zlib::{zlib_compressed, zlib_decompressed};

verus! {

/// Sealing fails only where the session does. With a nonce left, or where none is needed, the
/// outcome is the session's own: the very message that it writes, and a failure exactly where it
/// writes none. Without a nonce nothing is sealed; a payload that the session refuses anyway, as
/// too long or because writing is closed to it, counts as refused, any other leaves the session as
/// it was.
pub proof fn law_sealing_fails_only_where_the_session_does(half: Seq<u8>, payload: Seq<u8>)
    ensures
        noise_sending_nonce(half) != Some(u64::MAX) ==> {
            &&& seal(half, payload).1 == noise_written(half, payload).1
            &&& seal(half, payload).0 is Ok <==> noise_written(half, payload).0 is Ok
            &&& seal(half, payload).0 is Ok ==> seal(half, payload).0->Ok_0 == noise_written(
                half,
                payload,
            ).0->Ok_0
            &&& seal(half, payload).0 is Err ==> seal(half, payload).0->Err_0
                == Fault::EncryptionFailed
        },
        noise_sending_nonce(half) == Some(u64::MAX) && payload.len() <= 65519 && noise_written(
            half,
            Seq::new(65535, |i: int| 0u8),
        ).0 != Err::<Seq<u8>, Refusal>(Refusal::OneWay) ==> seal(half, payload) == (
            Err::<Seq<u8>, Fault>(Fault::SessionSpent),
            half,
        ),
        payload.len() > 65519 || noise_written(half, Seq::new(65535, |i: int| 0u8)).0 == Err::<
            Seq<u8>,
            Refusal,
        >(Refusal::OneWay) ==> {
            &&& seal(half, payload).1 == noise_written(half, payload).1
            &&& noise_written(half, payload).0 is Err ==> seal(half, payload).0 == Err::<
                Seq<u8>,
                Fault,
            >(Fault::EncryptionFailed)
        },
        forall|drawn: Seq<u8>|
            {
                &&& (#[trigger] seal_drawn(half, payload, drawn)).1 == noise_drawn(
                    half,
                    payload,
                    drawn,
                ).1
                &&& match noise_drawn(half, payload, drawn).0 {
                    Ok(message) => seal_drawn(half, payload, drawn).0 == Ok::<Seq<u8>, Fault>(
                        message,
                    ),
                    Err(_) => seal_drawn(half, payload, drawn).0 == Err::<Seq<u8>, Fault>(
                        Fault::EncryptionFailed,
                    ),
                }
            },
{
    assert(Seq::new(65535, |i: int| 0u8) =~= oversized());
}

/// Opening fails only where the session does. Where the session can read, the outcome is its own:
/// the very payload that it recovers, and a failure exactly where it recovers none. Where it
/// cannot, a message that it refuses out of hand counts as refused, and any other leaves the
/// session as it was.
pub proof fn law_opening_fails_only_where_the_session_does(half: Seq<u8>, message: Seq<u8>)
    ensures
        (noise_receiving_nonce(half) is Some && noise_receiving_nonce(half)->0 < u64::MAX) || (
        noise_receiving_nonce(half) is None && !noise_finished(half)) ==> {
            &&& unseal(half, message).1 == noise_read(half, message).1
            &&& unseal(half, message).0 is Ok <==> noise_read(half, message).0 is Ok
            &&& unseal(half, message).0 is Ok ==> unseal(half, message).0->Ok_0 == noise_read(
                half,
                message,
            ).0->Ok_0
            &&& unseal(half, message).0 is Err ==> unseal(half, message).0->Err_0
                == Fault::DecryptionFailed
        },
        noise_receiving_nonce(half) == Some(u64::MAX) && 16 <= message.len() <= 65551 && noise_read(
            half,
            Seq::empty(),
        ).0 != Err::<Seq<u8>, Refusal>(Refusal::OneWay) ==> unseal(half, message) == (
            Err::<Seq<u8>, Fault>(Fault::SessionSpent),
            half,
        ),
        noise_receiving_nonce(half) == Some(u64::MAX) && (!(16 <= message.len() <= 65551)
            || noise_read(half, Seq::empty()).0 == Err::<Seq<u8>, Refusal>(Refusal::OneWay)) ==> {
            &&& unseal(half, message).1 == noise_read(half, message).1
            &&& noise_read(half, message).0 is Err ==> unseal(half, message).0 == Err::<
                Seq<u8>,
                Fault,
            >(Fault::DecryptionFailed)
        },
        noise_receiving_nonce(half) is None && noise_finished(half) && !noise_stateless(half)
            && message.len() <= 65535 ==> unseal(half, message) == (
            Err::<Seq<u8>, Fault>(Fault::SessionSpent),
            half,
        ),
        noise_receiving_nonce(half) is None && noise_finished(half) && (noise_stateless(half)
            || message.len() > 65535) && noise_read(half, message).0 is Err ==> unseal(
            half,
            message,
        ).0 == Err::<Seq<u8>, Fault>(Fault::DecryptionFailed),
{
}

/// Whether a frame is the `i`-th of a message: 256 bytes, a count, as much of the message as fits
/// from there on, and zeros.
pub open spec fn is_frame(frame: Seq<u8>, message: Seq<u8>, i: int) -> bool {
    let left = message.len() - 255 * i;
    let count = if left < 255 {
        left
    } else {
        255
    };
    &&& frame.len() == 256
    &&& frame[0] == count
    &&& forall|j: int| 1 <= j <= count ==> #[trigger] frame[j] == message[255 * i + j - 1]
    &&& forall|j: int| count < j < 256 ==> #[trigger] frame[j] == 0
}

/// How many frames a message takes: one for every 255 bytes, and one more for the rest, even where
/// there is none; an empty message takes none.
pub proof fn law_frames_of_a_message(message: Seq<u8>, i: int)
    ensures
        message.len() == 0 ==> frames_of(message).len() == 0,
        message.len() > 0 ==> {
            &&& 255 * (frames_of(message).len() - 1) <= message.len() < 255 * frames_of(
                message,
            ).len()
            &&& 0 <= i < frames_of(message).len() ==> is_frame(frames_of(message)[i], message, i)
        },
{
    if message.len() > 0 && 0 <= i < frames_of(message).len() {
        lemma_frame_size(message, i);
        let frame = frames_of(message)[i];
        let share = frame_share(message, i);
        assert forall|j: int| 1 <= j <= share.len() implies #[trigger] frame[j] == message[255 * i
            + j - 1] by {
            assert(frame[j] == share[j - 1]);
        }
    }
}

/// Two lists of frames of one message are the same list.
proof fn lemma_frames_unique(message: Seq<u8>, frames: Seq<Seq<u8>>)
    requires
        message.len() > 0,
        255 * (frames.len() - 1) <= message.len() < 255 * frames.len(),
        forall|i: int| 0 <= i < frames.len() ==> is_frame(#[trigger] frames[i], message, i),
    ensures
        frames == frames_of(message),
{
    law_frames_of_a_message(message, 0);
    assert(frames.len() == frames_of(message).len());
    assert forall|i: int| 0 <= i < frames.len() implies #[trigger] frames[i] == frames_of(
        message,
    )[i] by {
        law_frames_of_a_message(message, i);
        let one = frames[i];
        let other = frames_of(message)[i];
        assert forall|j: int| 0 <= j < 256 implies one[j] == other[j] by {}
        assert(one =~= other);
    }
    assert(frames =~= frames_of(message));
}

/// Whether the session writes the first `n` frames one after another, with a nonce for each:
/// `halves` holds its sending half before each and behind the last, `messages` what it writes.
pub open spec fn session_writes(
    halves: Seq<Seq<u8>>,
    frames: Seq<Seq<u8>>,
    messages: Seq<Seq<u8>>,
    n: int,
) -> bool {
    &&& 0 <= n <= frames.len()
    &&& messages.len() == n
    &&& halves.len() == n + 1
    &&& forall|i: int|
        #![trigger messages[i]]
        0 <= i < n ==> noise_sending_nonce(halves[i]) != Some(u64::MAX) && noise_written(
            halves[i],
            frames[i],
        ) == (Ok::<Seq<u8>, Refusal>(messages[i]), halves[i + 1])
}

/// What the session writes is what sealing gives.
proof fn lemma_session_writes(
    halves: Seq<Seq<u8>>,
    frames: Seq<Seq<u8>>,
    messages: Seq<Seq<u8>>,
    n: int,
    k: int,
)
    requires
        session_writes(halves, frames, messages, n),
        0 <= k <= n,
    ensures
        seal_all(halves[0], frames.take(k)).fault is None,
        seal_all(halves[0], frames.take(k)).frames == messages.take(k),
        seal_all(halves[0], frames.take(k)).state == halves[k],
    decreases k,
{
    if k == 0 {
        assert(messages.take(0) =~= Seq::<Seq<u8>>::empty());
    } else {
        lemma_session_writes(halves, frames, messages, n, k - 1);
        assert(frames.take(k).drop_last() =~= frames.take(k - 1));
        assert(frames.take(k).last() == frames[k - 1]);
        assert(messages[k - 1] == messages.take(k)[k - 1]);
        law_sealing_fails_only_where_the_session_does(halves[k - 1], frames[k - 1]);
        assert(messages.take(k) =~= messages.take(k - 1).push(messages[k - 1]));
    }
}

/// What a message is sent as: the bytes that are cut into frames.
pub open spec fn on_the_wire(oxy: Oxy, serialized: Seq<u8>, packed: Seq<u8>) -> bool {
    &&& oxy.outbound_compression ==> packed == zlib_compressed(serialized)
    &&& !oxy.outbound_compression ==> packed == serialized
}

/// Sending goes as far as the session does, and no less far.
///
/// Where the session writes all frames of a message, all that it writes is sent, in order, and
/// there is no fault. Where it writes the first `n` and then refuses one, or has no nonce for it,
/// those `n` are sent and the fault says which it was.
pub proof fn law_sending_goes_as_far_as_the_session(
    before: Oxy,
    serialized: Seq<u8>,
    packed: Seq<u8>,
    outgoing: Outgoing,
    after: Oxy,
    frames: Seq<Seq<u8>>,
    halves: Seq<Seq<u8>>,
    messages: Seq<Seq<u8>>,
    n: int,
)
    requires
        before.sent(serialized, outgoing, after),
        before.noise_session is Some,
        noise_finished(sending_half(before.noise_session->0)),
        on_the_wire(before, serialized, packed),
        packed.len() > 0,
        255 * (frames.len() - 1) <= packed.len() < 255 * frames.len(),
        forall|i: int| 0 <= i < frames.len() ==> is_frame(#[trigger] frames[i], packed, i),
        halves[0] == sending_half(before.noise_session->0),
        session_writes(halves, frames, messages, n),
    ensures
        n == frames.len() ==> outgoing.fault is None,
        n < frames.len() && noise_sending_nonce(halves[n]) != Some(u64::MAX) && noise_written(
            halves[n],
            frames[n],
        ).0 is Err ==> outgoing.fault == Some(Fault::EncryptionFailed),
        n < frames.len() && noise_sending_nonce(halves[n]) == Some(u64::MAX) && noise_written(
            halves[n],
            Seq::new(65535, |i: int| 0u8),
        ).0 != Err::<Seq<u8>, Refusal>(Refusal::OneWay) ==> outgoing.fault == Some(
            Fault::SessionSpent,
        ),
        n == frames.len() || outgoing.fault is Some && (noise_sending_nonce(halves[n]) == Some(
            u64::MAX,
        ) && noise_written(halves[n], Seq::new(65535, |i: int| 0u8)).0 != Err::<
            Seq<u8>,
            Refusal,
        >(Refusal::OneWay) || noise_written(halves[n], frames[n]).0 is Err) ==> {
            &&& outgoing.frames@.len() == n
            &&& forall|i: int| 0 <= i < n ==> (#[trigger] outgoing.frames@[i])@ == messages[i]
        },
        n == frames.len() ==> sending_half(after.noise_session->0) == halves[n],
{
    let state = halves[0];
    lemma_frames_unique(packed, frames);
    assert(packed == pack(serialized, before.outbound_compression));
    lemma_session_writes(halves, frames, messages, n, n);
    assert(messages.take(n) =~= messages);
    let sealed = seal_all(state, frames);
    assert forall|i: int| 0 <= i < outgoing.frames@.len() implies (#[trigger] outgoing.frames@[
        i
    ])@ == sealed.frames[i] by {
        assert(contents(outgoing.frames@)[i] == outgoing.frames@[i]@);
    }
    assert(contents(outgoing.frames@).len() == outgoing.frames@.len());
    if n == frames.len() {
        assert(frames.take(n) =~= frames);
    } else {
        assert(frames.take(n + 1).drop_last() =~= frames.take(n));
        assert(frames.take(n + 1).last() == frames[n]);
        law_sealing_fails_only_where_the_session_does(halves[n], frames[n]);
        assert(is_frame(frames[n], packed, n));
        if seal(halves[n], frames[n]).0 is Err {
            lemma_seal_all_stops(state, frames, n + 1);
        }
    }
}

/// Every message takes the next number, sent or not; before the key exchange nothing is sent, and
/// the session stays as it is. Nothing else changes.
pub proof fn law_sending_takes_a_number(
    before: Oxy,
    serialized: Seq<u8>,
    outgoing: Outgoing,
    after: Oxy,
)
    requires
        before.sent(serialized, outgoing, after),
    ensures
        outgoing.message_number == before.outgoing_ticker,
        after.outgoing_ticker == before.outgoing_ticker + 1,
        before.noise_session is None || !noise_finished(sending_half(before.noise_session->0))
            ==> outgoing.frames@.len() == 0 && outgoing.fault == Some(Fault::SentBeforeKeyExchange)
            && after.noise_session == before.noise_session,
        after == (Oxy {
            outgoing_ticker: after.outgoing_ticker,
            noise_session: after.noise_session,
            ..before
        }),
{
}

/// What an opened frame does to the message under way.
///
/// A frame of the wrong size is a fault and changes nothing. Of a frame of 256 bytes, as many bytes
/// as its first byte says are added to what is under way. A count of 255 leaves the message under
/// way. Any other ends it: the whole of it comes out, decompressed where that was agreed on, and
/// nothing is left; what cannot be decompressed is a fault, and nothing is left either.
pub proof fn law_frame_adds_to_the_message(buffer: Seq<u8>, compression: bool, frame: Seq<u8>)
    ensures
        ({
            let (arrival, left) = absorb(buffer, compression, frame);
            let message = buffer + frame.subrange(1, 1 + frame[0]);
            &&& frame.len() != 256 ==> arrival == Arrival::Failed(Fault::IncorrectFrameLength)
                && left == buffer
            &&& frame.len() == 256 && frame[0] == 255 ==> arrival == Arrival::Incomplete && left
                == message
            &&& frame.len() == 256 && frame[0] != 255 ==> {
                &&& left.len() == 0
                &&& !compression ==> arrival == Arrival::Complete(message)
                &&& compression && zlib_decompressed(message) is Some ==> arrival
                    == Arrival::Complete(zlib_decompressed(message)->0)
                &&& compression && zlib_decompressed(message) is None ==> arrival
                    == Arrival::Failed(Fault::DecompressionFailed)
            }
        }),
{
}

/// What a chunk does to the receiving end.
///
/// A chunk that the session does not open is a fault, and neither the message under way nor the
/// count changes. One that it opens adds to the message under way as its frame says; a message that
/// comes out has the number that was next, and only then does the count go up, by one. Nothing else
/// changes.
pub proof fn law_chunk_is_taken_in(before: Oxy, chunk: Seq<u8>, incoming: Incoming, after: Oxy)
    requires
        before.received(chunk, incoming, after),
        before.noise_session is Some,
        ({
            let half = receiving_half(before.noise_session->0);
            (noise_receiving_nonce(half) is Some && noise_receiving_nonce(half)->0 < u64::MAX) || (
            noise_receiving_nonce(half) is None && !noise_finished(half))
        }),
    ensures
        ({
            let half = receiving_half(before.noise_session->0);
            let (read, half_after) = noise_read(half, chunk);
            let buffer = before.inbound_cleartext_buffer@;
            let left = after.inbound_cleartext_buffer@;
            &&& receiving_half(after.noise_session->0) == half_after
            &&& read is Err ==> incoming == Incoming::Failed(Fault::DecryptionFailed) && left
                == buffer
            &&& read is Ok ==> {
                let frame = read->Ok_0;
                let message = buffer + frame.subrange(1, 1 + frame[0]);
                &&& frame.len() != 256 ==> incoming == Incoming::Failed(
                    Fault::IncorrectFrameLength,
                ) && left == buffer
                &&& frame.len() == 256 && frame[0] == 255 ==> incoming == Incoming::Incomplete
                    && left == message
                &&& frame.len() == 256 && frame[0] != 255 ==> left.len() == 0
                &&& frame.len() == 256 && frame[0] != 255 && !before.inbound_compression
                    ==> incoming is Message && incoming->bytes@ == message
                &&& frame.len() == 256 && frame[0] != 255 && before.inbound_compression ==> match
                zlib_decompressed(message) {
                    Some(bytes) => incoming is Message && incoming->bytes@ == bytes,
                    None => incoming == Incoming::Failed(Fault::DecompressionFailed),
                }
            }
            &&& incoming is Message ==> incoming->message_number == before.incoming_ticker
                && after.incoming_ticker == before.incoming_ticker + 1
            &&& !(incoming is Message) ==> after.incoming_ticker == before.incoming_ticker
        }),
        after == (Oxy {
            noise_session: after.noise_session,
            inbound_cleartext_buffer: after.inbound_cleartext_buffer,
            incoming_ticker: after.incoming_ticker,
            ..before
        }),
{
    let half = receiving_half(before.noise_session->0);
    law_opening_fails_only_where_the_session_does(half, chunk);
    if noise_read(half, chunk).0 is Ok {
        law_frame_adds_to_the_message(
            before.inbound_cleartext_buffer@,
            before.inbound_compression,
            noise_read(half, chunk).0->Ok_0,
        );
    }
}

/// Packing is compression where that was agreed on, and nothing otherwise; unpacking likewise.
pub proof fn law_packing_is_compression(data: Seq<u8>)
    ensures
        pack(data, true) == zlib_compressed(data),
        pack(data, false) == data,
        unpack(data, true) == zlib_decompressed(data),
        unpack(data, false) == Some(data),
{
}

} // verus!
