//! The Noise session that seals outgoing frames and opens incoming ones.
//!
//! The cryptography is the `snow` crate's. A session is a state machine: each message written
//! or read moves it on. What a session holds is seen here as two opaque sequences of bytes:
//! `sending_half`, all that writing depends on, and `receiving_half`, all that reading depends
//! on. During the handshake the two are one; in transport mode each direction has its own. What
//! the crate does is named as functions of a half and of the bytes handed in.

use vstd::prelude::*;

verus! {

/// Size of the scratch buffer handed to the session: the longest message that Noise allows.
pub const MAX_NOISE_MESSAGE: usize = 65535;

/// Bytes that sealing adds to a plaintext: the authentication tag.
pub const NOISE_TAG: usize = 16;

/// `snow::Session`, an opaque value.
#[verifier::external_type_specification]
#[verifier::external_body]
pub struct ExSession(snow::Session);

/// Why the session refuses to read or write.
#[derive(Clone, Copy, Debug, PartialEq, Eq, Structural)]
pub enum Refusal {
    /// The pattern is one-way, and this end is on the wrong side of it.
    OneWay,
    /// Anything else.
    Other,
}

/// All that writing depends on: stage, keys and counters of a session. During the handshake,
/// everything that the session holds.
pub uninterp spec fn sending_half(session: snow::Session) -> Seq<u8>;

/// All that reading depends on: stage, keys and counters of a session. During the handshake,
/// everything that the session holds.
pub uninterp spec fn receiving_half(session: snow::Session) -> Seq<u8>;

/// What `snow::Session::is_handshake_finished` answers, given either half.
pub uninterp spec fn noise_finished(half: Seq<u8>) -> bool;

/// What `snow::Session::sending_nonce` answers, given the sending half; `None` is its error.
pub uninterp spec fn noise_sending_nonce(half: Seq<u8>) -> Option<u64>;

/// What `snow::Session::receiving_nonce` answers, given the receiving half; `None` is its error.
pub uninterp spec fn noise_receiving_nonce(half: Seq<u8>) -> Option<u64>;

/// Whether the session is in the transport mode that wants a nonce with each message, given the
/// receiving half.
pub uninterp spec fn noise_stateless(half: Seq<u8>) -> bool;

/// What `snow::Session::write_message` does with a payload, given the sending half, once the
/// handshake is finished: the message it writes, and the sending half that it leaves.
pub uninterp spec fn noise_written(
    half: Seq<u8>,
    payload: Seq<u8>,
) -> (Result<Seq<u8>, Refusal>, Seq<u8>);

/// What `snow::Session::write_message` does with a payload during the handshake, given all that
/// the session holds and the random bytes that it draws: the message it writes, and what the
/// session holds afterwards.
pub uninterp spec fn noise_drawn(
    half: Seq<u8>,
    payload: Seq<u8>,
    drawn: Seq<u8>,
) -> (Result<Seq<u8>, Refusal>, Seq<u8>);

/// What `snow::Session::read_message` does with a message, given the receiving half: the payload
/// it recovers, and the receiving half that it leaves.
pub uninterp spec fn noise_read(
    half: Seq<u8>,
    message: Seq<u8>,
) -> (Result<Seq<u8>, Refusal>, Seq<u8>);

/// The bytes that a call has left at the front of the buffer, or why it refused.
pub open spec fn outcome(result: Result<usize, Refusal>, buf: Seq<u8>) -> Result<
    Seq<u8>,
    Refusal,
> {
    match result {
        Ok(n) => Ok(buf.take(n as int)),
        Err(refusal) => Err(refusal),
    }
}

/// A payload that no session writes, because it is too long.
pub open spec fn oversized() -> Seq<u8> {
    Seq::new(MAX_NOISE_MESSAGE as nat, |i: int| 0u8)
}

/// Whether writing is closed to a session with this sending half: its pattern is one-way, and it
/// is the responder.
pub open spec fn closed_to_writing(half: Seq<u8>) -> bool {
    noise_written(half, oversized()).0 == Err::<Seq<u8>, Refusal>(Refusal::OneWay)
}

/// Whether reading is closed to a session with this receiving half: its pattern is one-way, and
/// it is the initiator.
pub open spec fn closed_to_reading(half: Seq<u8>) -> bool {
    noise_read(half, Seq::empty()).0 == Err::<Seq<u8>, Refusal>(Refusal::OneWay)
}

/// Whether a session with this sending half has a nonce for the next message, or needs none.
pub open spec fn can_write(half: Seq<u8>) -> bool {
    noise_sending_nonce(half) != Some(u64::MAX)
}

/// Whether a session in transport mode with this sending half refuses the payload before it looks
/// for a nonce.
pub open spec fn refuses_payload(half: Seq<u8>, payload: Seq<u8>) -> bool {
    payload.len() + NOISE_TAG > MAX_NOISE_MESSAGE || closed_to_writing(half)
}

/// Whether a session with this receiving half can read: in transport mode with nonces left, or
/// in the middle of a handshake. A handshake that is over leaves nothing to read until the
/// session is moved to transport mode.
pub open spec fn can_read(half: Seq<u8>) -> bool {
    match noise_receiving_nonce(half) {
        Some(nonce) => nonce < u64::MAX,
        None => !noise_finished(half),
    }
}

/// Whether a session with this receiving half refuses the message before it looks for a nonce or
/// for what the handshake expects.
pub open spec fn refuses_message(half: Seq<u8>, message: Seq<u8>) -> bool {
    if noise_receiving_nonce(half) is Some {
        ||| message.len() < NOISE_TAG
        ||| message.len() > MAX_NOISE_MESSAGE + NOISE_TAG
        ||| closed_to_reading(half)
    } else {
        noise_stateless(half) || message.len() > MAX_NOISE_MESSAGE
    }
}

/// Calls `snow::Session::is_handshake_finished`, and claims that the answer shows in either half
/// of the session.
#[verifier::external_body]
pub(crate) fn handshake_finished(session: &snow::Session) -> (finished: bool)
    ensures
        finished == noise_finished(sending_half(*session)),
        finished == noise_finished(receiving_half(*session)),
{
    session.is_handshake_finished()
}

/// Calls `snow::Session::sending_nonce`, and claims that the answer depends on the sending half
/// alone, and that there is one exactly where there is one for receiving.
#[verifier::external_body]
pub(crate) fn sending_nonce(session: &snow::Session) -> (nonce: Option<u64>)
    ensures
        nonce == noise_sending_nonce(sending_half(*session)),
        nonce is Some <==> noise_receiving_nonce(receiving_half(*session)) is Some,
{
    session.sending_nonce().ok()
}

/// Calls `snow::Session::receiving_nonce`, and claims that the answer depends on the receiving
/// half alone, and that there is one exactly where there is one for sending.
#[verifier::external_body]
pub(crate) fn receiving_nonce(session: &snow::Session) -> (nonce: Option<u64>)
    ensures
        nonce == noise_receiving_nonce(receiving_half(*session)),
        nonce is Some <==> noise_sending_nonce(sending_half(*session)) is Some,
{
    session.receiving_nonce().ok()
}

/// Tells the variants of `snow::Session` apart, and claims that the stateless one shows in the
/// receiving half.
#[verifier::external_body]
pub(crate) fn is_stateless(session: &snow::Session) -> (stateless: bool)
    ensures
        stateless == noise_stateless(receiving_half(*session)),
{
    match *session {
        snow::Session::Handshake(_) => false,
        snow::Session::Transport(_) => false,
        snow::Session::StatelessTransport(_) => true,
    }
}

/// Calls `snow::Session::write_message`.
///
/// Claims that the number returned lies between the length of the payload and that of the buffer.
/// Of a session whose handshake is finished it claims further that the bytes at the front of the
/// buffer, the refusal, and the sending half afterwards depend on the sending half before and on
/// the payload alone, that a message is the payload's length plus the tag, and that the handshake
/// stays finished. In transport mode a message takes a nonce, a refusal leaves the sending half as
/// it is, whether writing is closed does not depend on the payload, and the receiving half stays
/// as it is; otherwise the two halves are one. Of a session that is still in its handshake it
/// claims that the same three depend on what the session holds, on the payload and on the random
/// bytes that the crate draws; which bytes those are is left open.
#[verifier::external_body]
pub(crate) fn write_message(
    session: &mut snow::Session,
    payload: &[u8],
    buf: &mut Vec<u8>,
) -> (result: Result<usize, Refusal>)
    requires
        old(buf)@.len() == MAX_NOISE_MESSAGE,
        can_write(sending_half(*old(session))) || refuses_payload(
            sending_half(*old(session)),
            payload@,
        ),
    ensures
        final(buf)@.len() == MAX_NOISE_MESSAGE,
        result matches Ok(n) ==> payload@.len() <= n <= MAX_NOISE_MESSAGE,
        noise_finished(sending_half(*old(session))) || noise_sending_nonce(
            sending_half(*old(session)),
        ) is Some ==> {
            &&& (outcome(result, final(buf)@), sending_half(*final(session))) == noise_written(
                sending_half(*old(session)),
                payload@,
            )
            &&& result matches Ok(n) ==> n == payload@.len() + NOISE_TAG
            &&& noise_finished(sending_half(*final(session)))
        },
        !noise_finished(sending_half(*old(session))) && noise_sending_nonce(
            sending_half(*old(session)),
        ) is None ==> exists|drawn: Seq<u8>|
            (outcome(result, final(buf)@), sending_half(*final(session)))
                == #[trigger] noise_drawn(sending_half(*old(session)), payload@, drawn),
        noise_sending_nonce(sending_half(*old(session))) matches Some(nonce) ==> {
            &&& match result {
                Ok(_) => noise_sending_nonce(sending_half(*final(session))) == Some(
                    (nonce + 1) as u64,
                ),
                Err(_) => sending_half(*final(session)) == sending_half(*old(session)),
            }
            &&& result == Err::<usize, Refusal>(Refusal::OneWay) <==> closed_to_writing(
                sending_half(*old(session)),
            )
        },
        receiving_half(*final(session)) == (if noise_sending_nonce(sending_half(*old(session)))
            is Some {
            receiving_half(*old(session))
        } else {
            sending_half(*final(session))
        }),
{
    match session.write_message(payload, buf) {
        Ok(n) => Ok(n),
        Err(snow::SnowError::State { reason: snow::error::StateProblem::OneWay }) => Err(
            Refusal::OneWay,
        ),
        Err(_) => Err(Refusal::Other),
    }
}

/// Calls `snow::Session::read_message`.
///
/// Claims that the number returned never exceeds the buffer, that the bytes at the front of the
/// buffer, the refusal, and the receiving half afterwards depend on the receiving half before and
/// on the message alone, that a finished handshake stays finished, and that some messages are
/// refused out of hand. In transport mode a payload is shorter than its message by the tag and
/// takes a nonce, a message refused out of hand leaves the receiving half as it is, whether
/// reading is closed does not depend on the message, and the sending half stays as it is;
/// otherwise the two halves are one.
#[verifier::external_body]
pub(crate) fn read_message(
    session: &mut snow::Session,
    message: &[u8],
    buf: &mut Vec<u8>,
) -> (result: Result<usize, Refusal>)
    requires
        old(buf)@.len() == MAX_NOISE_MESSAGE,
        can_read(receiving_half(*old(session))) || refuses_message(
            receiving_half(*old(session)),
            message@,
        ),
    ensures
        final(buf)@.len() == MAX_NOISE_MESSAGE,
        result matches Ok(n) ==> n <= MAX_NOISE_MESSAGE,
        (outcome(result, final(buf)@), receiving_half(*final(session))) == noise_read(
            receiving_half(*old(session)),
            message@,
        ),
        refuses_message(receiving_half(*old(session)), message@) ==> result is Err,
        noise_finished(receiving_half(*old(session))) ==> noise_finished(
            receiving_half(*final(session)),
        ),
        noise_receiving_nonce(receiving_half(*old(session))) matches Some(nonce) ==> {
            &&& result matches Ok(n) ==> n + NOISE_TAG == message@.len() && noise_receiving_nonce(
                receiving_half(*final(session)),
            ) == Some((nonce + 1) as u64)
            &&& refuses_message(receiving_half(*old(session)), message@) ==> receiving_half(
                *final(session),
            ) == receiving_half(*old(session))
            &&& result == Err::<usize, Refusal>(Refusal::OneWay) <==> closed_to_reading(
                receiving_half(*old(session)),
            )
        },
        sending_half(*final(session)) == (if noise_receiving_nonce(receiving_half(*old(session)))
            is Some {
            sending_half(*old(session))
        } else {
            receiving_half(*final(session))
        }),
{
    match session.read_message(message, buf) {
        Ok(n) => Ok(n),
        Err(snow::SnowError::State { reason: snow::error::StateProblem::OneWay }) => Err(
            Refusal::OneWay,
        ),
        Err(_) => Err(Refusal::Other),
    }
}

} // verus!
