//! The serial effect manager: connection lifecycle, line-buffered protocol
//! parsing, and command draining.
//!
//! The manager owns exactly one physical connection attempt at a time. Each
//! iteration of its driving loop polls one pending command, reconciles the
//! connection against the manual-disconnect latch and the stored
//! configuration, reads and parses device output, and flushes at most one
//! outbound write. Everything that touches the hardware lives outside the
//! library; the decisions — what to open, when to back off, what to emit —
//! are the verified functions here.

use vstd::prelude::*;
use crate::eff::{Effect, EffectError};
use crate::channel::channel_pair;

verus! {

/// The fixed backoff interval after a lost or failed connection, in
/// milliseconds: no open attempt happens before it has elapsed.
pub const BACKOFF_MS: u64 = 2000;

/// Where to find the device: its path and baud rate.
#[derive(Debug)]
pub struct SerialConfiguration {
    pub device: String,
    pub baud: u32,
}

impl Clone for SerialConfiguration {
    fn clone(&self) -> (r: Self)
        ensures
            r == *self,
    {
        SerialConfiguration { device: self.device.clone(), baud: self.baud }
    }
}

/// The mathematical form of a serial configuration.
pub ghost struct SerialConfigurationV {
    pub device: Seq<char>,
    pub baud: u32,
}

impl View for SerialConfiguration {
    type V = SerialConfigurationV;

    open spec fn view(&self) -> SerialConfigurationV {
        SerialConfigurationV { device: self.device@, baud: self.baud }
    }
}

/// A value with a wire-text form, written towards the device.
pub trait WireText {
    /// The characters the value puts on the wire.
    spec fn wire(&self) -> Seq<char>;

    /// Serializes the value for the wire.
    fn to_wire(&self) -> (r: String)
        ensures
            r@ == self.wire(),
    ;
}

/// A command specific to the serial manager, as the command map produces it
/// from the application's command type.
pub enum SerialCommand<D> {
    /// Clears (true) or sets (false) the manual-disconnect latch; setting it
    /// also drops the current connection.
    Control(bool),
    /// Replaces the stored device configuration.
    Configure(SerialConfiguration),
    /// A payload to write to the device this iteration.
    Data(D),
}

/// How the application's commands and messages map onto the serial
/// manager's: a translation for inbound commands, and the messages to emit
/// on the connect and disconnect edges.
pub trait SerialCommandMap<D: WireText> {
    type Command;

    type Message;

    /// What a command translates to, if it concerns the serial manager.
    spec fn spec_translate(&self, original: Self::Command) -> Option<SerialCommand<D>>;

    /// Translates one application command.
    fn translate(&self, original: Self::Command) -> (r: Option<SerialCommand<D>>)
        ensures
            r == self.spec_translate(original),
    ;

    /// The message emitted on the connected-to-disconnected edge.
    spec fn disconnected_message(&self) -> Self::Message;

    /// Builds the disconnect message.
    fn disconnected(&self) -> (r: Self::Message)
        ensures
            r == self.disconnected_message(),
    ;

    /// The message emitted on the disconnected-to-connected edge.
    spec fn connected_message(&self) -> Self::Message;

    /// Builds the connect message.
    fn connected(&self) -> (r: Self::Message)
        ensures
            r == self.connected_message(),
    ;
}

/// The pluggable parser producing application messages from accumulated
/// device bytes. One call decodes at most one message and says how many
/// bytes it consumed.
pub trait OuputParser {
    type Message;

    /// What it means for a prefix of the data to decode to this message.
    spec fn parses_to(&self, data: Seq<u8>, message: Self::Message, taken: int) -> bool;

    /// What it means for the data to hold no complete frame yet.
    spec fn yields_nothing(&self, data: Seq<u8>) -> bool;

    /// Attempts to decode one message from the front of the data. A decoded
    /// message consumes a strictly positive number of bytes.
    fn parse(&self, data: &[u8]) -> (r: Option<(Self::Message, usize)>)
        ensures
            match r {
                Some(p) => 0 < p.1 <= data@.len() && self.parses_to(data@, p.0, p.1 as int),
                None => self.yields_nothing(data@),
            },
    ;
}

/// Adds the backoff interval to a timestamp, pinned at the top of the range.
pub open spec fn spec_backoff_from(now_ms: u64) -> u64 {
    if now_ms + BACKOFF_MS > u64::MAX {
        u64::MAX
    } else {
        (now_ms + BACKOFF_MS) as u64
    }
}

/// The connection-lifecycle state of one driving loop: whether a `Connected`
/// message has been emitted and not yet revoked, the manual-disconnect
/// latch, whether a handle is currently open, and the earliest time the next
/// open attempt is allowed.
#[derive(Debug, Clone, Copy, PartialEq, Eq, Structural)]
pub struct SerialLink {
    pub is_connected: bool,
    pub manual_disconnect: bool,
    pub has_port: bool,
    pub retry_at_ms: u64,
}

impl SerialLink {
    /// The state before any connection attempt.
    pub fn new() -> (r: SerialLink)
        ensures
            r == (SerialLink {
                is_connected: false,
                manual_disconnect: false,
                has_port: false,
                retry_at_ms: 0u64,
            }),
    {
        SerialLink { is_connected: false, manual_disconnect: false, has_port: false, retry_at_ms: 0 }
    }

    /// The state after an open attempt, and whether the `Connected` message
    /// is emitted: only on the edge, when the attempt succeeded and the link
    /// was not already connected. A failed attempt schedules the next try
    /// one backoff interval away.
    pub open spec fn open_step(self, now_ms: u64, success: bool) -> (SerialLink, bool) {
        if success {
            (
                SerialLink { is_connected: true, has_port: true, ..self },
                !self.is_connected,
            )
        } else {
            (
                SerialLink { has_port: false, retry_at_ms: spec_backoff_from(now_ms), ..self },
                false,
            )
        }
    }

    /// Records the outcome of one open attempt; returns whether to emit the
    /// `Connected` message.
    pub fn note_open_result(&mut self, now_ms: u64, success: bool) -> (emit: bool)
        ensures
            (*final(self), emit) == old(self).open_step(now_ms, success),
    {
        if success {
            let emit = !self.is_connected;
            self.is_connected = true;
            self.has_port = true;
            emit
        } else {
            self.has_port = false;
            self.retry_at_ms = backoff_from(now_ms);
            false
        }
    }

    /// The state after an iteration found no open handle, and whether the
    /// `Disconnected` message is emitted: only on the edge, when the link
    /// was connected until now. The next open attempt is scheduled one
    /// backoff interval away.
    pub open spec fn no_port_step(self, now_ms: u64) -> (SerialLink, bool) {
        (
            SerialLink { is_connected: false, retry_at_ms: spec_backoff_from(now_ms), ..self },
            self.is_connected,
        )
    }

    /// Records that no handle is open this iteration; returns whether to
    /// emit the `Disconnected` message.
    pub fn note_no_port(&mut self, now_ms: u64) -> (emit: bool)
        requires
            !old(self).has_port,
        ensures
            (*final(self), emit) == old(self).no_port_step(now_ms),
    {
        let emit = self.is_connected;
        self.is_connected = false;
        self.retry_at_ms = backoff_from(now_ms);
        emit
    }

    /// The state after a read or write error: the handle is dropped and the
    /// next open attempt is scheduled one backoff interval away.
    pub open spec fn io_error_step(self, now_ms: u64) -> SerialLink {
        SerialLink { has_port: false, retry_at_ms: spec_backoff_from(now_ms), ..self }
    }

    /// Records a read or write error on the open handle.
    pub fn note_io_error(&mut self, now_ms: u64)
        ensures
            *final(self) == old(self).io_error_step(now_ms),
    {
        self.has_port = false;
        self.retry_at_ms = backoff_from(now_ms);
    }
}

/// Adds the backoff interval to a timestamp, pinned at the top of the range.
pub fn backoff_from(now_ms: u64) -> (r: u64)
    ensures
        r == spec_backoff_from(now_ms),
{
    if now_ms > u64::MAX - BACKOFF_MS {
        u64::MAX
    } else {
        now_ms + BACKOFF_MS
    }
}

/// The command channel half kept by a manager: the receiver it drains, and
/// the sender it hands to the runtime once.
#[verifier::reject_recursive_types(C)]
pub struct CommandChannel<C> {
    pub receiver: async_std::channel::Receiver<C>,
    pub sender: Option<async_std::channel::Sender<C>>,
}

/// The message channel half kept by a manager: the sender it emits on, and
/// the receiver it hands to the runtime once.
#[verifier::reject_recursive_types(M)]
pub struct MessageChannel<M> {
    pub sender: async_std::channel::Sender<M>,
    pub receiver: Option<async_std::channel::Receiver<M>>,
}

/// The serial effect manager: the pluggable parser, the channel pair, the
/// stored device configuration, and the byte accumulation buffer.
#[verifier::reject_recursive_types(C)]
#[verifier::reject_recursive_types(M)]
pub struct Serial<C, M, O> {
    pub parser: O,
    pub commands: CommandChannel<C>,
    pub messages: MessageChannel<M>,
    pub buffer: Vec<u8>,
    pub config: Option<SerialConfiguration>,
}

impl<C, M, O> Serial<C, M, O> where O: OuputParser<Message = M> {
    /// A fresh manager: empty buffer, the given configuration, both channel
    /// endpoints still attached.
    pub fn new(config: Option<SerialConfiguration>, parser: O) -> (r: Self)
        ensures
            r.parser == parser,
            r.config == config,
            r.buffer@ == Seq::<u8>::empty(),
            r.commands.sender is Some,
            r.messages.receiver is Some,
    {
        let (cmd_sender, cmd_receiver) = channel_pair();
        let (msg_sender, msg_receiver) = channel_pair();
        Serial {
            parser,
            config,
            buffer: Vec::new(),
            commands: CommandChannel { receiver: cmd_receiver, sender: Some(cmd_sender) },
            messages: MessageChannel { sender: msg_sender, receiver: Some(msg_receiver) },
        }
    }

    /// Step one of an iteration: applies one polled command, if any.
    /// Control commands drive the latch, configuration commands replace the
    /// stored configuration, and a data command becomes this iteration's
    /// pending write, serialized to its wire text.
    pub fn apply_command<D: WireText, T: SerialCommandMap<D, Command = C, Message = M>>(
        &mut self,
        glue: &T,
        link: &mut SerialLink,
        command: Option<C>,
    ) -> (w: Option<String>)
        ensures
            final(self).parser == old(self).parser,
            final(self).buffer == old(self).buffer,
            final(self).commands == old(self).commands,
            final(self).messages == old(self).messages,
            match command {
                None => final(self).config == old(self).config && *final(link) == *old(link) && w
                    is None,
                Some(c) => match glue.spec_translate(c) {
                    Some(SerialCommand::Control(enable)) => final(self).config == old(self).config
                        && w is None && *final(link) == (if enable {
                        SerialLink { manual_disconnect: false, ..*old(link) }
                    } else {
                        SerialLink { manual_disconnect: true, has_port: false, ..*old(link) }
                    }),
                    Some(SerialCommand::Configure(config)) => final(self).config == Some(config)
                        && *final(link) == *old(link) && w is None,
                    Some(SerialCommand::Data(payload)) => final(self).config == old(self).config
                        && *final(link) == *old(link) && (w matches Some(text) && text@
                        == payload.wire()),
                    None => final(self).config == old(self).config && *final(link) == *old(link)
                        && w is None,
                },
            },
    {
        match command {
            None => None,
            Some(original) => match glue.translate(original) {
                Some(SerialCommand::Control(enable)) => {
                    if enable {
                        link.manual_disconnect = false;
                    } else {
                        link.manual_disconnect = true;
                        link.has_port = false;
                    }
                    None
                },
                Some(SerialCommand::Configure(config)) => {
                    self.config = Some(config);
                    None
                },
                Some(SerialCommand::Data(payload)) => Some(payload.to_wire()),
                None => None,
            },
        }
    }

    /// Whether this iteration should attempt to open the device: not
    /// latched, configured, no handle open, and the backoff interval since
    /// the last failure has elapsed.
    pub open spec fn spec_should_open(&self, link: SerialLink, now_ms: u64) -> bool {
        !link.manual_disconnect && self.config is Some && !link.has_port && now_ms
            >= link.retry_at_ms
    }

    /// Step two of an iteration: decides whether to attempt an open.
    pub fn should_open(&self, link: &SerialLink, now_ms: u64) -> (r: bool)
        ensures
            r == self.spec_should_open(*link, now_ms),
    {
        !link.manual_disconnect && self.config.is_some() && !link.has_port && now_ms
            >= link.retry_at_ms
    }

    /// Step four of an iteration: appends one read's bytes to the
    /// accumulation buffer.
    pub fn extend_buffer(&mut self, data: &[u8])
        ensures
            final(self).buffer@ == old(self).buffer@ + data@,
            final(self).parser == old(self).parser,
            final(self).commands == old(self).commands,
            final(self).messages == old(self).messages,
            final(self).config == old(self).config,
    {
        let n = data.len();
        let mut i: usize = 0;
        while i < n
            invariant
                i <= n,
                n == data@.len(),
                self.buffer@ == old(self).buffer@ + data@.subrange(0, i as int),
                self.parser == old(self).parser,
                self.commands == old(self).commands,
                self.messages == old(self).messages,
                self.config == old(self).config,
            decreases n - i,
        {
            self.buffer.push(data[i]);
            proof {
                assert(self.buffer@ =~= old(self).buffer@ + data@.subrange(0, i + 1 as int));
            }
            i += 1;
        }
        proof {
            assert(self.buffer@ =~= old(self).buffer@ + data@);
        }
    }

    /// Step five of an iteration: one parse attempt against the accumulated
    /// buffer. At most one message is decoded per call; its consumed bytes
    /// are removed from the front of the buffer. An empty buffer is not
    /// offered to the parser.
    pub fn parse_step(&mut self) -> (r: Option<M>)
        ensures
            final(self).parser == old(self).parser,
            final(self).commands == old(self).commands,
            final(self).messages == old(self).messages,
            final(self).config == old(self).config,
            match r {
                Some(message) => exists|taken: int|
                    0 < taken <= old(self).buffer@.len() && old(self).parser.parses_to(
                        old(self).buffer@,
                        message,
                        taken,
                    ) && final(self).buffer@ == old(self).buffer@.skip(taken),
                None => final(self).buffer == old(self).buffer && (old(self).buffer@.len() == 0
                    || old(self).parser.yields_nothing(old(self).buffer@)),
            },
    {
        if self.buffer.len() == 0 {
            return None;
        }
        let parsed = self.parser.parse(self.buffer.as_slice());
        match parsed {
            None => None,
            Some((message, taken)) => {
                let mut rest: Vec<u8> = Vec::new();
                let total = self.buffer.len();
                let mut i: usize = taken;
                while i < total
                    invariant
                        taken <= i <= total,
                        total == self.buffer@.len(),
                        rest@ == self.buffer@.subrange(taken as int, i as int),
                    decreases total - i,
                {
                    rest.push(self.buffer[i]);
                    proof {
                        assert(rest@ =~= self.buffer@.subrange(taken as int, i + 1 as int));
                    }
                    i += 1;
                }
                proof {
                    assert(rest@ =~= self.buffer@.skip(taken as int));
                }
                self.buffer = rest;
                Some(message)
            },
        }
    }
}

/// The link state left by a sequence of open attempts, each a time and an
/// outcome, applied in order.
pub open spec fn open_fold(link: SerialLink, steps: Seq<(u64, bool)>) -> SerialLink
    decreases steps.len(),
{
    if steps.len() == 0 {
        link
    } else {
        open_fold(link.open_step(steps[0].0, steps[0].1).0, steps.skip(1))
    }
}

/// How many `Connected` messages a sequence of open attempts emits.
pub open spec fn connected_emissions(link: SerialLink, steps: Seq<(u64, bool)>) -> nat
    decreases steps.len(),
{
    if steps.len() == 0 {
        0
    } else {
        (if link.open_step(steps[0].0, steps[0].1).1 {
            1nat
        } else {
            0nat
        }) + connected_emissions(link.open_step(steps[0].0, steps[0].1).0, steps.skip(1))
    }
}

/// How many disconnected-to-connected transitions a sequence of open
/// attempts makes: the successful attempts arriving while not connected.
pub open spec fn rising_edges(link: SerialLink, steps: Seq<(u64, bool)>) -> nat
    decreases steps.len(),
{
    if steps.len() == 0 {
        0
    } else {
        (if steps[0].1 && !link.is_connected {
            1nat
        } else {
            0nat
        }) + rising_edges(link.open_step(steps[0].0, steps[0].1).0, steps.skip(1))
    }
}

/// Connection reporting is edge-triggered: over any sequence of open
/// attempts, exactly one `Connected` message is emitted per
/// disconnected-to-connected transition, never more.
pub proof fn lemma_connected_edge_triggered(link: SerialLink, steps: Seq<(u64, bool)>)
    ensures
        connected_emissions(link, steps) == rising_edges(link, steps),
    decreases steps.len(),
{
    if steps.len() > 0 {
        lemma_connected_edge_triggered(link.open_step(steps[0].0, steps[0].1).0, steps.skip(1));
    }
}

/// Successful opens while already connected never re-emit `Connected`.
pub proof fn lemma_no_reemission_while_connected(link: SerialLink, steps: Seq<(u64, bool)>)
    requires
        link.is_connected,
        forall|i: int| 0 <= i < steps.len() ==> (#[trigger] steps[i]).1,
    ensures
        connected_emissions(link, steps) == 0,
    decreases steps.len(),
{
    if steps.len() > 0 {
        let next = link.open_step(steps[0].0, steps[0].1).0;
        assert(next.is_connected);
        assert(forall|i: int| 0 <= i < steps.skip(1).len() ==> (#[trigger] steps.skip(1)[i]).1);
        lemma_no_reemission_while_connected(next, steps.skip(1));
    }
}

/// Backoff is respected: after a failed open attempt, a lost handle, or an
/// I/O error at one time, no open attempt is decided before the fixed
/// backoff interval has elapsed, whatever configuration is stored.
pub proof fn lemma_backoff_monotonic<C, M, O: OuputParser<Message = M>>(
    serial: Serial<C, M, O>,
    link: SerialLink,
    now_ms: u64,
    later_ms: u64,
)
    requires
        later_ms < spec_backoff_from(now_ms),
    ensures
        !serial.spec_should_open(link.open_step(now_ms, false).0, later_ms),
        !serial.spec_should_open(link.no_port_step(now_ms).0, later_ms),
        !serial.spec_should_open(link.io_error_step(now_ms), later_ms),
{
}

impl<C, M, O> Effect for Serial<C, M, O> {
    type Message = M;

    type Command = C;

    open spec fn detached(&self) -> bool {
        self.commands.sender is None || self.messages.receiver is None
    }

    open spec fn own_endpoints(
        &self,
        endpoints: &(async_std::channel::Receiver<M>, async_std::channel::Sender<C>),
    ) -> bool {
        self.messages.receiver == Some(endpoints.0) && self.commands.sender == Some(endpoints.1)
    }

    fn detach(&mut self) -> (r: Result<
        (async_std::channel::Receiver<M>, async_std::channel::Sender<C>),
        EffectError,
    >) {
        match self.commands.sender.take() {
            None => Err(EffectError::AlreadyDetached),
            Some(cmd_in) => match self.messages.receiver.take() {
                None => Err(EffectError::AlreadyDetached),
                Some(msg_out) => Ok((msg_out, cmd_in)),
            },
        }
    }
}

} // verus!
