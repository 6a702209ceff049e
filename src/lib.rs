//! Reply correlation for handlers that send a message and then await its reply
//! across separate, stateless invocations.

pub mod fixture;
pub mod ids;
pub mod msg;
pub mod signals;

pub use ids::{ActorId, MessageId};
pub use msg::{
    CodecMessageFuture, MessageFuture, Progress, await_reply, send_and_wait_for_reply,
    send_bytes_and_wait_for_reply,
};
pub use signals::{Fault, ReplyPoll, WakeSignals};
