use vstd::prelude::*;

use crate::ids::{ActorId, MessageId};
use crate::signals::{
    Fault, PendingReply, PollOutcome, ReplyPoll, WakeSignals, poll_outcome, polled, recorded,
    registered,
};
use core::marker::PhantomData;

verus! {

#[verifier::external_type_specification]
#[verifier::external_body]
pub struct ExHostError(gcore::errors::Error);

#[verifier::external_type_specification]
#[verifier::external_body]
pub struct ExCodecError(parity_scale_codec::Error);

/// The host refused a call (a send, a wake).
pub struct HostError {
    pub cause: gcore::errors::Error,
}

/// A reply's bytes could not be decoded into the awaited type.
pub struct DecodeError {
    pub cause: parity_scale_codec::Error,
}

/// Why a reply could not be delivered.
pub enum DeliveryError {
    /// Nobody awaits the reply; see [`Fault::UnknownReply`].
    Unknown(Fault),
    /// The host refused to wake the awaiting task.
    Wake(HostError),
}

/// Outcome of polling a future once.
pub enum Progress<T> {
    /// Not ready: the invocation should end and wait to be woken.
    Pending,
    /// Resolved with a value.
    Ready(T),
}

/// Relies on gcore::msg::send_with_gas: enqueues a message to `program` with
/// the given gas limit and value, and returns the new message's id or the
/// host's error.
#[verifier::external_body]
pub fn send_bytes(program: ActorId, payload: &[u8], gas_limit: u64, value: u128) -> (r: Result<
    MessageId,
    HostError,
>) {
    match gcore::msg::send_with_gas(gcore::ActorId::new(program.0), payload, gas_limit, value) {
        Ok(id) => Ok(MessageId(id.into_bytes())),
        Err(cause) => Err(HostError { cause }),
    }
}

/// Relies on gcore::msg::id: the id of the message being handled.
#[verifier::external_body]
pub fn id() -> (r: MessageId) {
    MessageId(gcore::msg::id().into_bytes())
}

/// Relies on gcore::exec::wake: asks the host to resume the task that handles
/// `message_id`.
#[verifier::external_body]
fn wake(message_id: MessageId) -> (r: Result<(), HostError>) {
    match gcore::exec::wake(gcore::MessageId::new(message_id.0)) {
        Ok(()) => Ok(()),
        Err(cause) => Err(HostError { cause }),
    }
}

/// Relies on parity_scale_codec::Encode::encode: the value's encoding.
#[verifier::external_body]
fn encode<E: parity_scale_codec::Encode>(payload: &E) -> (r: Vec<u8>) {
    payload.encode()
}

/// Relies on parity_scale_codec::Decode::decode: a value of `D` read from the
/// front of `bytes`, or the codec's error.
#[verifier::external_body]
fn decode<D: parity_scale_codec::Decode>(bytes: &Vec<u8>) -> (r: Result<D, DecodeError>) {
    match D::decode(&mut bytes.as_slice()) {
        Ok(d) => Ok(d),
        Err(cause) => Err(DecodeError { cause }),
    }
}

/// Awaits the reply to one sent message, as raw bytes. All state lives in
/// the registry, so the future can be made again on every invocation.
pub struct MessageFuture {
    pub waiting_reply_to: MessageId,
}

/// What one poll of a future for `awaited` yields, given the registry `m`
/// before it: a fault for a message never awaited, else whether the reply is
/// there.
pub open spec fn future_outcome(m: Map<Seq<u8>, PendingReply>, awaited: Seq<u8>) -> Result<
    Progress<Seq<u8>>,
    Fault,
> {
    match poll_outcome(m, awaited) {
        PollOutcome::Absent => Err(Fault::NeverAwaited),
        PollOutcome::Pending => Ok(Progress::Pending),
        PollOutcome::Ready(p) => Ok(Progress::Ready(p)),
    }
}

impl MessageFuture {
    /// Polls once. A delivered reply is returned verbatim and consumed.
    pub fn poll(&self, signals: &mut WakeSignals) -> (r: Result<Progress<Vec<u8>>, Fault>)
        requires
            old(signals).wf(),
        ensures
            final(signals).wf(),
            final(signals)@ == polled(old(signals)@, self.waiting_reply_to@),
            match r {
                Ok(Progress::Ready(v)) => future_outcome(old(signals)@, self.waiting_reply_to@)
                    == Ok::<Progress<Seq<u8>>, Fault>(Progress::Ready(v@)),
                Ok(Progress::Pending) => future_outcome(old(signals)@, self.waiting_reply_to@)
                    == Ok::<Progress<Seq<u8>>, Fault>(Progress::Pending),
                Err(f) => future_outcome(old(signals)@, self.waiting_reply_to@) == Err::<
                    Progress<Seq<u8>>,
                    Fault,
                >(f),
            },
    {
        match signals.poll(self.waiting_reply_to) {
            ReplyPoll::Absent => Err(Fault::NeverAwaited),
            ReplyPoll::Pending => Ok(Progress::Pending),
            ReplyPoll::Ready(reply) => Ok(Progress::Ready(reply)),
        }
    }
}

/// Awaits the reply to one sent message, decoded as a `D`.
pub struct CodecMessageFuture<D> {
    pub waiting_reply_to: MessageId,
    pub phantom: PhantomData<D>,
}

impl<D: parity_scale_codec::Decode> CodecMessageFuture<D> {
    /// A future for the reply to `waiting_reply_to`.
    pub fn new(waiting_reply_to: MessageId) -> (r: Self)
        ensures
            r.waiting_reply_to == waiting_reply_to,
    {
        CodecMessageFuture { waiting_reply_to, phantom: PhantomData }
    }

    /// Polls once. A delivered reply is consumed whether or not it decodes;
    /// a decoding failure is an ordinary result, not a fault.
    pub fn poll(&self, signals: &mut WakeSignals) -> (r: Result<Progress<Result<D, DecodeError>>, Fault>)
        requires
            old(signals).wf(),
        ensures
            final(signals).wf(),
            final(signals)@ == polled(old(signals)@, self.waiting_reply_to@),
            match r {
                Ok(Progress::Ready(_)) => future_outcome(old(signals)@, self.waiting_reply_to@) is Ok
                    && future_outcome(old(signals)@, self.waiting_reply_to@)->Ok_0 is Ready,
                Ok(Progress::Pending) => future_outcome(old(signals)@, self.waiting_reply_to@)
                    == Ok::<Progress<Seq<u8>>, Fault>(Progress::Pending),
                Err(f) => future_outcome(old(signals)@, self.waiting_reply_to@) == Err::<
                    Progress<Seq<u8>>,
                    Fault,
                >(f),
            },
    {
        match signals.poll(self.waiting_reply_to) {
            ReplyPoll::Absent => Err(Fault::NeverAwaited),
            ReplyPoll::Pending => Ok(Progress::Pending),
            ReplyPoll::Ready(reply) => Ok(Progress::Ready(decode(&reply))),
        }
    }
}

/// Registers the wait for the reply to `waiting_reply_to`, on behalf of the
/// task handling `wake_this_message`, and returns the future that polls it.
pub fn await_reply(
    signals: &mut WakeSignals,
    waiting_reply_to: MessageId,
    wake_this_message: MessageId,
) -> (r: MessageFuture)
    requires
        old(signals).wf(),
    ensures
        final(signals).wf(),
        final(signals)@ == registered(old(signals)@, waiting_reply_to@, wake_this_message),
        r.waiting_reply_to == waiting_reply_to,
{
    signals.register_signal(waiting_reply_to, wake_this_message);
    MessageFuture { waiting_reply_to }
}

/// Sends `payload` to `program` and awaits the reply, on behalf of the message
/// being handled. When the host refuses the send, nothing is registered.
pub fn send_bytes_and_wait_for_reply(
    signals: &mut WakeSignals,
    program: ActorId,
    payload: &[u8],
    gas_limit: u64,
    value: u128,
) -> (r: Result<MessageFuture, HostError>)
    requires
        old(signals).wf(),
    ensures
        final(signals).wf(),
        match r {
            Ok(f) => final(signals)@ == registered(
                old(signals)@,
                f.waiting_reply_to@,
                final(signals)@[f.waiting_reply_to@].wake_target,
            ),
            Err(_) => final(signals)@ == old(signals)@,
        },
{
    match send_bytes(program, payload, gas_limit, value) {
        Ok(waiting_reply_to) => {
            let current = id();
            Ok(await_reply(signals, waiting_reply_to, current))
        },
        Err(e) => Err(e),
    }
}

/// Sends the encoding of `payload` to `program` and awaits a reply decoded
/// as a `D`. When the host refuses the send, nothing is registered.
pub fn send_and_wait_for_reply<D: parity_scale_codec::Decode, E: parity_scale_codec::Encode>(
    signals: &mut WakeSignals,
    program: ActorId,
    payload: &E,
    gas_limit: u64,
    value: u128,
) -> (r: Result<CodecMessageFuture<D>, HostError>)
    requires
        old(signals).wf(),
    ensures
        final(signals).wf(),
        match r {
            Ok(f) => final(signals)@ == registered(
                old(signals)@,
                f.waiting_reply_to@,
                final(signals)@[f.waiting_reply_to@].wake_target,
            ),
            Err(_) => final(signals)@ == old(signals)@,
        },
{
    let bytes = encode(payload);
    match send_bytes(program, bytes.as_slice(), gas_limit, value) {
        Ok(waiting_reply_to) => {
            let current = id();
            signals.register_signal(waiting_reply_to, current);
            Ok(CodecMessageFuture::new(waiting_reply_to))
        },
        Err(e) => Err(e),
    }
}

/// Stores the reply to `waiting_reply_to` and asks the host to resume the
/// task that awaits it. A reply that nobody awaits is refused with the
/// registry unchanged, and nobody is woken.
pub fn deliver_reply(signals: &mut WakeSignals, waiting_reply_to: MessageId, payload: Vec<u8>) -> (r: Result<
    (),
    DeliveryError,
>)
    requires
        old(signals).wf(),
    ensures
        final(signals).wf(),
        old(signals)@.contains_key(waiting_reply_to@) ==> final(signals)@ == recorded(
            old(signals)@,
            waiting_reply_to@,
            payload@,
        ) && !(r matches Err(DeliveryError::Unknown(_))),
        !old(signals)@.contains_key(waiting_reply_to@) ==> final(signals)@ == old(signals)@ && (r
            matches Err(DeliveryError::Unknown(f)) && f == Fault::UnknownReply),
{
    match signals.record_reply(waiting_reply_to, payload) {
        Ok(target) => match wake(target) {
            Ok(()) => Ok(()),
            Err(e) => Err(DeliveryError::Wake(e)),
        },
        Err(f) => Err(DeliveryError::Unknown(f)),
    }
}

} // verus!
