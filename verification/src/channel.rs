//! The channel: from the bytes of a message to sealed frames, and back.
//!
//! An outgoing message is packed (compressed, where that was agreed on), cut into frames, and
//! each frame is sealed. An incoming chunk is opened, what it carries is added to the message
//! that is under way, and the frame that ends the message hands it over, unpacked and numbered.

use vstd::prelude::*;
use vstd::slice::{slice_subrange, slice_to_vec};

use crate::action::Fault;
use crate::frame::{
    carried, contents, continues, frame, frames_of, lemma_frame_size, FRAME_CAPACITY, FRAME_SIZE,
};
use crate::noise::{
    can_read, can_write, handshake_finished, is_stateless, noise_drawn, noise_finished, noise_read,
    noise_sending_nonce, noise_written, outcome, oversized, read_message, receiving_nonce,
    refuses_message, refuses_payload, sending_half, sending_nonce, write_message, Refusal,
    MAX_NOISE_MESSAGE, NOISE_TAG,
};
use crate::state::Oxy;
use crate::zlib::{
    zlib_compress, zlib_compressed, zlib_decompress, zlib_decompressed, ZLIB_HEADER,
};

verus! {

/// Size of a frame once it is sealed: what the transport is asked for at a time.
pub const SEALED_FRAME_SIZE: usize = 272;

/// What sealing a payload gives, and the state that it leaves the session in.
pub open spec fn seal(state: Seq<u8>, payload: Seq<u8>) -> (Result<Seq<u8>, Fault>, Seq<u8>) {
    if !can_write(state) && !refuses_payload(state, payload) {
        (Err(Fault::SessionSpent), state)
    } else {
        let written = noise_written(state, payload);
        match written.0 {
            Ok(message) => (Ok(message), written.1),
            Err(_) => (Err(Fault::EncryptionFailed), written.1),
        }
    }
}

/// What sealing a payload gives during the handshake, where the session draws these random bytes,
/// and the state that it leaves the session in.
pub open spec fn seal_drawn(state: Seq<u8>, payload: Seq<u8>, drawn: Seq<u8>) -> (
    Result<Seq<u8>, Fault>,
    Seq<u8>,
) {
    let written = noise_drawn(state, payload, drawn);
    match written.0 {
        Ok(message) => (Ok(message), written.1),
        Err(_) => (Err(Fault::EncryptionFailed), written.1),
    }
}

/// What opening a message gives, and the state that it leaves the session in.
pub open spec fn unseal(state: Seq<u8>, message: Seq<u8>) -> (Result<Seq<u8>, Fault>, Seq<u8>) {
    if !can_read(state) && !refuses_message(state, message) {
        (Err(Fault::SessionSpent), state)
    } else {
        let read = noise_read(state, message);
        match read.0 {
            Ok(payload) => (Ok(payload), read.1),
            Err(_) => (Err(Fault::DecryptionFailed), read.1),
        }
    }
}

/// Payloads that were sealed one after another, up to the first failure.
pub struct Sealed {
    pub frames: Seq<Seq<u8>>,
    pub fault: Option<Fault>,
    pub state: Seq<u8>,
}

/// Seals payloads one after another, up to the first failure.
pub open spec fn seal_all(state: Seq<u8>, payloads: Seq<Seq<u8>>) -> Sealed
    decreases payloads.len(),
{
    if payloads.len() == 0 {
        Sealed { frames: Seq::empty(), fault: None, state }
    } else {
        let before = seal_all(state, payloads.drop_last());
        if before.fault is Some {
            before
        } else {
            let (last, after) = seal(before.state, payloads.last());
            match last {
                Ok(message) => Sealed {
                    frames: before.frames.push(message),
                    fault: None,
                    state: after,
                },
                Err(fault) => Sealed { frames: before.frames, fault: Some(fault), state: after },
            }
        }
    }
}

/// A message as it is cut into frames.
pub open spec fn pack(data: Seq<u8>, compression: bool) -> Seq<u8> {
    if compression {
        zlib_compressed(data)
    } else {
        data
    }
}

/// What a packed message stands for.
pub open spec fn unpack(data: Seq<u8>, compression: bool) -> Option<Seq<u8>> {
    if compression {
        zlib_decompressed(data)
    } else {
        Some(data)
    }
}

/// What a chunk brings.
pub enum Arrival {
    /// The message goes on in the next frame.
    Incomplete,
    /// The message is complete.
    Complete(Seq<u8>),
    /// The session cannot go on.
    Failed(Fault),
}

/// What an opened frame brings to a message of which `buffer` has arrived, and what is left in
/// the buffer.
pub open spec fn absorb(buffer: Seq<u8>, compression: bool, frame: Seq<u8>) -> (Arrival, Seq<u8>) {
    if frame.len() != FRAME_SIZE {
        (Arrival::Failed(Fault::IncorrectFrameLength), buffer)
    } else {
        let message = buffer + carried(frame);
        if continues(frame) {
            (Arrival::Incomplete, message)
        } else {
            match unpack(message, compression) {
                Some(bytes) => (Arrival::Complete(bytes), Seq::empty()),
                None => (Arrival::Failed(Fault::DecompressionFailed), Seq::empty()),
            }
        }
    }
}

/// The bytes in a result.
pub open spec fn bytes_in(result: Result<Vec<u8>, Fault>) -> Result<Seq<u8>, Fault> {
    match result {
        Ok(bytes) => Ok(bytes@),
        Err(fault) => Err(fault),
    }
}

/// A message that was sent.
#[derive(Clone, Debug, PartialEq, Eq)]
pub struct Outgoing {
    /// The number it got.
    pub message_number: u64,
    /// The sealed frames, to be put on the transport in this order.
    pub frames: Vec<Vec<u8>>,
    /// Why the session cannot go on after these frames.
    pub fault: Option<Fault>,
}

/// What came of a chunk.
#[derive(Clone, Debug, PartialEq, Eq)]
pub enum Incoming {
    /// Nothing yet.
    Incomplete,
    /// A message, serialized, and its number.
    Message { bytes: Vec<u8>, message_number: u64 },
    /// The session cannot go on.
    Failed(Fault),
}

impl Incoming {
    /// The same, without the number.
    pub open spec fn arrival(self) -> Arrival {
        match self {
            Incoming::Incomplete => Arrival::Incomplete,
            Incoming::Message { bytes, .. } => Arrival::Complete(bytes@),
            Incoming::Failed(fault) => Arrival::Failed(fault),
        }
    }
}

/// A run that failed early is not changed by what would have followed.
pub(crate) proof fn lemma_seal_all_stops(state: Seq<u8>, payloads: Seq<Seq<u8>>, n: int)
    requires
        0 <= n <= payloads.len(),
        seal_all(state, payloads.take(n)).fault is Some,
    ensures
        seal_all(state, payloads) == seal_all(state, payloads.take(n)),
    decreases payloads.len(),
{
    if n < payloads.len() {
        let shorter = payloads.drop_last();
        assert(shorter.take(n) =~= payloads.take(n));
        lemma_seal_all_stops(state, shorter, n);
    } else {
        assert(payloads.take(n) =~= payloads);
    }
}

/// Compresses a message.
pub fn compress(data: &[u8]) -> (compressed: Vec<u8>)
    ensures
        compressed@ == zlib_compressed(data@),
        zlib_decompressed(compressed@) == Some(data@),
        compressed@.len() > ZLIB_HEADER,
{
    zlib_compress(data)
}

/// Decompresses a message.
pub fn decompress(data: &[u8]) -> (decompressed: Result<Vec<u8>, Fault>)
    ensures
        bytes_in(decompressed) == (match zlib_decompressed(data@) {
            Some(bytes) => Ok(bytes),
            None => Err(Fault::DecompressionFailed),
        }),
        data@.len() < ZLIB_HEADER ==> decompressed == Err::<Vec<u8>, Fault>(
            Fault::DecompressionFailed,
        ),
{
    match zlib_decompress(data) {
        Some(bytes) => Ok(bytes),
        None => Err(Fault::DecompressionFailed),
    }
}

impl Oxy {
    /// Has the session seal a payload.
    ///
    /// Once the handshake is finished the outcome is `seal`'s. During the handshake the session
    /// draws random keys, so there the outcome is `seal_drawn`'s for whatever was drawn.
    pub fn encrypt(&mut self, message: &[u8]) -> (sealed: Result<Vec<u8>, Fault>)
        requires
            old(self).noise_session is Some,
        ensures
            final(self).noise_session is Some,
            old(self).encrypted() || old(self).in_transport_mode() ==> (
                bytes_in(sealed),
                final(self).sending_state(),
            ) == seal(old(self).sending_state(), message@),
            !old(self).encrypted() && !old(self).in_transport_mode() ==> exists|drawn: Seq<u8>|
                (bytes_in(sealed), final(self).sending_state()) == #[trigger] seal_drawn(
                    old(self).sending_state(),
                    message@,
                    drawn,
                ),
            old(self).encrypted() ==> final(self).encrypted(),
            match sealed {
                Ok(bytes) => message@.len() <= bytes@.len() <= MAX_NOISE_MESSAGE && (
                old(self).encrypted() ==> bytes@.len() == message@.len() + NOISE_TAG),
                Err(fault) => fault == (if can_write(old(self).sending_state())
                    || refuses_payload(old(self).sending_state(), message@) {
                    Fault::EncryptionFailed
                } else {
                    Fault::SessionSpent
                }),
            },
            final(self).receiving_state() == (if old(self).in_transport_mode() {
                old(self).receiving_state()
            } else {
                final(self).sending_state()
            }),
            old(self).in_transport_mode() ==> final(self).in_transport_mode(),
            *final(self) == (Oxy { noise_session: final(self).noise_session, ..*old(self) }),
    {
        let mut buf: Vec<u8> = vec![0u8; MAX_NOISE_MESSAGE];
        match &mut self.noise_session {
            Some(session) => {
                if sending_nonce(session) == Some(u64::MAX) && message.len() <= MAX_NOISE_MESSAGE
                    - NOISE_TAG {
                    let probe: Vec<u8> = vec![0u8; MAX_NOISE_MESSAGE];
                    assert(probe@ =~= oversized());
                    let closed: bool = match write_message(session, probe.as_slice(), &mut buf) {
                        Err(Refusal::OneWay) => true,
                        _ => false,
                    };
                    if !closed {
                        return Err(Fault::SessionSpent);
                    }
                }
                let ghost half = sending_half(*session);
                let written: Result<usize, Refusal> = write_message(session, message, &mut buf);
                proof {
                    if !noise_finished(half) && noise_sending_nonce(half) is None {
                        let drawn = choose|drawn: Seq<u8>|
                            (outcome(written, buf@), sending_half(*session))
                                == #[trigger] noise_drawn(half, message@, drawn);
                        assert(seal_drawn(half, message@, drawn).1 == sending_half(*session));
                    }
                }
                match written {
                    Ok(n) => {
                        buf.truncate(n);
                        Ok(buf)
                    },
                    Err(_) => Err(Fault::EncryptionFailed),
                }
            },
            None => Err(Fault::SessionSpent),
        }
    }

    /// What sealing depends on after something was read: in transport mode the same as before,
    /// during the handshake all that the session holds.
    pub open spec fn sending_after_read(self, message: Seq<u8>, after: Oxy) -> Seq<u8> {
        if !self.in_transport_mode() && (can_read(self.receiving_state()) || refuses_message(
            self.receiving_state(),
            message,
        )) {
            after.receiving_state()
        } else {
            self.sending_state()
        }
    }

    /// Has the session open a message.
    pub fn decrypt(&mut self, message: &[u8]) -> (opened: Result<Vec<u8>, Fault>)
        requires
            old(self).noise_session is Some,
        ensures
            final(self).noise_session is Some,
            (bytes_in(opened), final(self).receiving_state()) == unseal(
                old(self).receiving_state(),
                message@,
            ),
            refuses_message(old(self).receiving_state(), message@) ==> opened == Err::<
                Vec<u8>,
                Fault,
            >(Fault::DecryptionFailed),
            final(self).sending_state() == old(self).sending_after_read(message@, *final(self)),
            old(self).encrypted() ==> final(self).encrypted(),
            opened matches Ok(bytes) ==> bytes@.len() <= MAX_NOISE_MESSAGE && (
            old(self).in_transport_mode() ==> bytes@.len() + NOISE_TAG == message@.len()),
            *final(self) == (Oxy { noise_session: final(self).noise_session, ..*old(self) }),
    {
        let mut buf: Vec<u8> = vec![0u8; MAX_NOISE_MESSAGE];
        match &mut self.noise_session {
            Some(session) => {
                let len: usize = message.len();
                let finished: bool = handshake_finished(session);
                let answered: bool = match receiving_nonce(session) {
                    Some(nonce) => {
                        if nonce < u64::MAX || len < NOISE_TAG || len > MAX_NOISE_MESSAGE
                            + NOISE_TAG {
                            true
                        } else {
                            let probe: Vec<u8> = Vec::new();
                            assert(probe@ =~= Seq::empty());
                            match read_message(session, probe.as_slice(), &mut buf) {
                                Err(Refusal::OneWay) => true,
                                _ => false,
                            }
                        }
                    },
                    None => !finished || is_stateless(session) || len > MAX_NOISE_MESSAGE,
                };
                if !answered {
                    return Err(Fault::SessionSpent);
                }
                match read_message(session, message, &mut buf) {
                    Ok(n) => {
                        buf.truncate(n);
                        Ok(buf)
                    },
                    Err(_) => Err(Fault::DecryptionFailed),
                }
            },
            None => Err(Fault::SessionSpent),
        }
    }

    /// Seals frames one after another, up to the first failure.
    fn encrypt_frames(&mut self, framed: &Vec<Vec<u8>>) -> (outcome: (Vec<Vec<u8>>, Option<Fault>))
        requires
            old(self).encrypted(),
            forall|i: int| 0 <= i < framed@.len() ==> (#[trigger] framed@[i])@.len() == FRAME_SIZE,
        ensures
            final(self).encrypted(),
            old(self).in_transport_mode() ==> final(self).in_transport_mode()
                && final(self).receiving_state() == old(self).receiving_state(),
            forall|i: int|
                0 <= i < outcome.0@.len() ==> (#[trigger] outcome.0@[i])@.len()
                    == SEALED_FRAME_SIZE,
            ({
                let sealed = seal_all(old(self).sending_state(), contents(framed@));
                &&& contents(outcome.0@) == sealed.frames
                &&& outcome.1 == sealed.fault
                &&& final(self).sending_state() == sealed.state
            }),
            *final(self) == (Oxy { noise_session: final(self).noise_session, ..*old(self) }),
    {
        let ghost state = self.sending_state();
        let ghost payloads = contents(framed@);
        let mut frames: Vec<Vec<u8>> = Vec::new();
        let mut i: usize = 0;
        assert(contents(frames@) =~= Seq::<Seq<u8>>::empty());
        while i < framed.len()
            invariant
                i <= framed@.len(),
                payloads == contents(framed@),
                forall|k: int|
                    0 <= k < framed@.len() ==> (#[trigger] framed@[k])@.len() == FRAME_SIZE,
                forall|k: int|
                    0 <= k < frames@.len() ==> (#[trigger] frames@[k])@.len() == SEALED_FRAME_SIZE,
                state == old(self).sending_state(),
                self.encrypted(),
                old(self).in_transport_mode() ==> self.in_transport_mode()
                    && self.receiving_state() == old(self).receiving_state(),
                contents(frames@) == seal_all(state, payloads.take(i as int)).frames,
                seal_all(state, payloads.take(i as int)).fault is None,
                self.sending_state() == seal_all(state, payloads.take(i as int)).state,
                *self == (Oxy { noise_session: self.noise_session, ..*old(self) }),
            decreases framed@.len() - i,
        {
            proof {
                assert(payloads.take(i + 1).drop_last() =~= payloads.take(i as int));
                assert(payloads.take(i + 1).last() == framed@[i as int]@);
            }
            match self.encrypt(framed[i].as_slice()) {
                Ok(sealed) => {
                    let ghost before = frames@;
                    frames.push(sealed);
                    assert(contents(frames@) =~= contents(before).push(sealed@));
                },
                Err(fault) => {
                    proof {
                        lemma_seal_all_stops(state, payloads, i + 1);
                    }
                    return (frames, Some(fault));
                },
            }
            i = i + 1;
        }
        assert(payloads.take(i as int) =~= payloads);
        (frames, None)
    }

    /// What sending does: `self` is the state before it, `after` the one behind it.
    pub open spec fn sent(self, serialized: Seq<u8>, outgoing: Outgoing, after: Oxy) -> bool {
        let packed = pack(serialized, self.outbound_compression);
        &&& outgoing.message_number == self.outgoing_ticker
        &&& !self.encrypted() ==> {
            &&& outgoing.frames@.len() == 0
            &&& outgoing.fault == Some(Fault::SentBeforeKeyExchange)
            &&& after.noise_session == self.noise_session
        }
        &&& self.encrypted() ==> {
            let sealed = seal_all(self.sending_state(), frames_of(packed));
            &&& contents(outgoing.frames@) == sealed.frames
            &&& outgoing.fault == sealed.fault
            &&& after.encrypted()
            &&& after.sending_state() == sealed.state
            &&& unpack(packed, self.outbound_compression) == Some(serialized)
            &&& self.outbound_compression ==> packed.len() > 0
        }
        &&& self.in_transport_mode() ==> after.in_transport_mode() && after.receiving_state()
            == self.receiving_state()
        &&& forall|i: int|
            0 <= i < outgoing.frames@.len() ==> (#[trigger] outgoing.frames@[i])@.len()
                == SEALED_FRAME_SIZE
        &&& after.outgoing_ticker == self.outgoing_ticker + 1
        &&& after == (Oxy {
            outgoing_ticker: after.outgoing_ticker,
            noise_session: after.noise_session,
            ..self
        })
    }

    /// Sends a serialized message: gives it a number, and makes the frames to be put on the
    /// transport.
    ///
    /// The number is taken even where the message cannot be sent.
    pub fn send(&mut self, serialized: Vec<u8>) -> (outgoing: Outgoing)
        requires
            old(self).outgoing_ticker < u64::MAX,
        ensures
            old(self).sent(serialized@, outgoing, *final(self)),
    {
        let message_number: u64 = self.tick_outgoing();
        if !self.is_encrypted() {
            return Outgoing {
                message_number,
                frames: Vec::new(),
                fault: Some(Fault::SentBeforeKeyExchange),
            };
        }
        let compressed: Vec<u8> = if self.outbound_compression {
            compress(serialized.as_slice())
        } else {
            serialized
        };
        let ghost packed = compressed@;
        let framed: Vec<Vec<u8>> = frame(compressed);
        proof {
            assert forall|i: int| 0 <= i < framed@.len() implies (#[trigger] framed@[i])@.len()
                == FRAME_SIZE by {
                assert(contents(framed@)[i] == framed@[i]@);
                lemma_frame_size(packed, i);
            }
        }
        let (frames, fault) = self.encrypt_frames(&framed);
        Outgoing { message_number, frames, fault }
    }

    /// What one chunk does: `self` is the state before it, `after` the one behind it.
    pub open spec fn received(self, chunk: Seq<u8>, incoming: Incoming, after: Oxy) -> bool {
        let (opened, state) = unseal(self.receiving_state(), chunk);
        let buffer = self.inbound_cleartext_buffer@;
        &&& after.noise_session is Some
        &&& after.receiving_state() == state
        &&& match opened {
            Ok(frame) => (incoming.arrival(), after.inbound_cleartext_buffer@) == absorb(
                buffer,
                self.inbound_compression,
                frame,
            ),
            Err(fault) => incoming == Incoming::Failed(fault) && after.inbound_cleartext_buffer@
                == buffer,
        }
        &&& after.sending_state() == self.sending_after_read(chunk, after)
        &&& self.in_transport_mode() && chunk.len() == SEALED_FRAME_SIZE ==> incoming
            != Incoming::Failed(Fault::IncorrectFrameLength)
        &&& self.encrypted() ==> after.encrypted()
        &&& match incoming {
            Incoming::Message { message_number, .. } => message_number == self.incoming_ticker
                && after.incoming_ticker == message_number + 1,
            _ => after.incoming_ticker == self.incoming_ticker,
        }
        &&& after == (Oxy {
            noise_session: after.noise_session,
            inbound_cleartext_buffer: after.inbound_cleartext_buffer,
            incoming_ticker: after.incoming_ticker,
            ..self
        })
    }

    /// Hands over a message whose last frame has come, or says that it could not be unpacked.
    pub fn complete_message(&mut self, unpacked: Result<Vec<u8>, Fault>) -> (incoming: Incoming)
        requires
            old(self).incoming_ticker < u64::MAX,
        ensures
            match unpacked {
                Ok(bytes) => {
                    &&& incoming == Incoming::Message {
                        bytes,
                        message_number: old(self).incoming_ticker,
                    }
                    &&& *final(self) == (Oxy {
                        incoming_ticker: (old(self).incoming_ticker + 1) as u64,
                        ..*old(self)
                    })
                },
                Err(fault) => incoming == Incoming::Failed(fault) && *final(self) == *old(self),
            },
    {
        match unpacked {
            Ok(bytes) => {
                let message_number: u64 = self.tick_incoming();
                Incoming::Message { bytes, message_number }
            },
            Err(fault) => Incoming::Failed(fault),
        }
    }

    /// Takes in one opened frame.
    pub fn absorb_frame(&mut self, plaintext: &Vec<u8>) -> (incoming: Incoming)
        requires
            old(self).incoming_ticker < u64::MAX,
        ensures
            (incoming.arrival(), final(self).inbound_cleartext_buffer@) == absorb(
                old(self).inbound_cleartext_buffer@,
                old(self).inbound_compression,
                plaintext@,
            ),
            match incoming {
                Incoming::Message { message_number, .. } => message_number
                    == old(self).incoming_ticker && final(self).incoming_ticker == message_number
                    + 1,
                _ => final(self).incoming_ticker == old(self).incoming_ticker,
            },
            *final(self) == (Oxy {
                inbound_cleartext_buffer: final(self).inbound_cleartext_buffer,
                incoming_ticker: final(self).incoming_ticker,
                ..*old(self)
            }),
    {
        if plaintext.len() != FRAME_SIZE {
            return Incoming::Failed(Fault::IncorrectFrameLength);
        }
        let relevant_bytes: usize = plaintext[0] as usize;
        let mut relevant: Vec<u8> = slice_to_vec(
            slice_subrange(plaintext.as_slice(), 1, 1 + relevant_bytes),
        );
        self.inbound_cleartext_buffer.append(&mut relevant);
        if relevant_bytes == FRAME_CAPACITY {
            return Incoming::Incomplete;
        }
        let mut message: Vec<u8> = Vec::new();
        std::mem::swap(&mut message, &mut self.inbound_cleartext_buffer);
        let unpacked: Result<Vec<u8>, Fault> = if self.inbound_compression {
            decompress(message.as_slice())
        } else {
            Ok(message)
        };
        self.complete_message(unpacked)
    }

    /// Takes in one chunk from the transport.
    pub fn recv(&mut self, chunk: &[u8]) -> (incoming: Incoming)
        requires
            old(self).noise_session is Some,
            old(self).incoming_ticker < u64::MAX,
        ensures
            old(self).received(chunk@, incoming, *final(self)),
    {
        match self.decrypt(chunk) {
            Ok(plaintext) => self.absorb_frame(&plaintext),
            Err(fault) => Incoming::Failed(fault),
        }
    }
}

} // verus!
