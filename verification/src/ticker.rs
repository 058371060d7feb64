//! The ticker effect manager: a periodic timer source producing one message
//! per interval. It is the smallest conforming effect manager; the timer
//! itself runs outside the library, which only owns the channel pair and the
//! interval.

use vstd::prelude::*;
use crate::eff::{Effect, EffectError};
use crate::channel::channel_pair;
use crate::serial::{CommandChannel, MessageChannel};

verus! {

/// The ticker manager: its interval and the channel pair it hands to the
/// runtime.
#[verifier::reject_recursive_types(C)]
#[verifier::reject_recursive_types(M)]
pub struct Ticker<C, M> {
    pub interval_ms: u64,
    pub commands: CommandChannel<C>,
    pub messages: MessageChannel<M>,
}

impl<C, M> Ticker<C, M> {
    /// A fresh ticker with both channel endpoints still attached.
    pub fn new(interval_ms: u64) -> (r: Self)
        ensures
            r.interval_ms == interval_ms,
            r.commands.sender is Some,
            r.messages.receiver is Some,
    {
        let (cmd_sender, cmd_receiver) = channel_pair();
        let (msg_sender, msg_receiver) = channel_pair();
        Ticker {
            interval_ms,
            commands: CommandChannel { receiver: cmd_receiver, sender: Some(cmd_sender) },
            messages: MessageChannel { sender: msg_sender, receiver: Some(msg_receiver) },
        }
    }
}

impl<C, M> Effect for Ticker<C, M> {
    type Message = M;

    type Command = C;

    open spec fn detached(&self) -> bool {
        self.commands.sender is None || self.messages.receiver is None
    }

    open spec fn own_endpoints(
        &self,
        endpoints: &(async_std::channel::Receiver<M>, async_std::channel::Sender<C>),
    ) -> bool {
        self.messages.receiver == Some(endpoints.0) && self.commands.sender == Some(endpoints.1)
    }

    fn detach(&mut self) -> (r: Result<
        (async_std::channel::Receiver<M>, async_std::channel::Sender<C>),
        EffectError,
    >) {
        match self.commands.sender.take() {
            None => Err(EffectError::AlreadyDetached),
            Some(cmd_in) => match self.messages.receiver.take() {
                None => Err(EffectError::AlreadyDetached),
                Some(msg_out) => Ok((msg_out, cmd_in)),
            },
        }
    }
}

} // verus!
