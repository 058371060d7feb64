//! The network-gateway effect manager: the commands and messages it
//! exchanges with the application, the channel pair it hands to the runtime,
//! and the client registry that routes an addressed command to exactly one
//! of many open connections.
//!
//! The listener, the per-connection tasks and every send live outside the
//! library; the registry decisions — who is registered, who a command
//! reaches, what a disconnect removes — are the verified functions here.

use vstd::prelude::*;
use crate::eff::{Effect, EffectError};
use crate::channel::channel_pair;
use crate::serial::{CommandChannel, MessageChannel};

verus! {

/// What the gateway needs to know to start serving: the listen address.
#[derive(Debug)]
pub struct Configuration {
    pub addr: String,
}

impl Clone for Configuration {
    fn clone(&self) -> (r: Self)
        ensures
            r == *self,
    {
        Configuration { addr: self.addr.clone() }
    }
}

/// A command the application addresses to the gateway: send a payload to
/// the one client with the given identifier.
#[derive(Debug)]
pub enum Command {
    SendState(String, String),
}

impl Clone for Command {
    fn clone(&self) -> (r: Self)
        ensures
            r == *self,
    {
        match self {
            Command::SendState(id, payload) => Command::SendState(id.clone(), payload.clone()),
        }
    }
}

/// What the gateway observed: a client arrived, sent data, uploaded a file,
/// or went away.
#[derive(Debug)]
pub enum Message {
    ClientConnected(String),
    ClientData(String, String),
    FileUpload(String),
    ClientDisconnected(String),
}

impl Clone for Message {
    fn clone(&self) -> (r: Self)
        ensures
            r == *self,
    {
        match self {
            Message::ClientConnected(id) => Message::ClientConnected(id.clone()),
            Message::ClientData(id, data) => Message::ClientData(id.clone(), data.clone()),
            Message::FileUpload(contents) => Message::FileUpload(contents.clone()),
            Message::ClientDisconnected(id) => Message::ClientDisconnected(id.clone()),
        }
    }
}

/// One registered client: its process-unique identifier and the exclusive
/// sender for that connection's outbound channel.
pub struct ClientEntry {
    pub id: String,
    pub sender: async_std::channel::Sender<Command>,
}

/// The client registry: the registered clients, in registration order, one
/// entry per identifier.
pub struct ClientRegistry {
    pub entries: Vec<ClientEntry>,
}

impl ClientRegistry {
    /// The registered identifiers, in registration order.
    pub open spec fn spec_ids(&self) -> Seq<Seq<char>> {
        Seq::new(self.entries@.len(), |i: int| self.entries@[i].id@)
    }

    /// Whether an identifier is registered.
    pub open spec fn contains_id(&self, id: Seq<char>) -> bool {
        self.spec_ids().contains(id)
    }

    /// The set of registered identifiers.
    pub open spec fn id_set(&self) -> Set<Seq<char>> {
        Set::new(|id: Seq<char>| self.contains_id(id))
    }

    /// Each identifier is registered at most once.
    pub open spec fn wf(&self) -> bool {
        forall|i: int, j: int|
            0 <= i < j < self.spec_ids().len() ==> #[trigger] self.spec_ids()[i]
                != #[trigger] self.spec_ids()[j]
    }

    /// An empty registry.
    pub fn new() -> (r: ClientRegistry)
        ensures
            r.spec_ids() == Seq::<Seq<char>>::empty(),
            r.wf(),
    {
        let r = ClientRegistry { entries: Vec::new() };
        proof {
            assert(r.spec_ids() =~= Seq::<Seq<char>>::empty());
        }
        r
    }

    /// Registers a client. A fresh identifier is appended after all others;
    /// registering an identifier again replaces that client's sender and
    /// moves nothing.
    pub fn register(&mut self, id: String, sender: async_std::channel::Sender<Command>)
        requires
            old(self).wf(),
        ensures
            final(self).wf(),
            final(self).contains_id(id@),
            old(self).contains_id(id@) ==> final(self).spec_ids() == old(self).spec_ids(),
            !old(self).contains_id(id@) ==> final(self).spec_ids() == old(self).spec_ids().push(
                id@,
            ),
            forall|other: Seq<char>|
                other != id@ ==> (final(self).contains_id(other) == old(self).contains_id(other)),
            final(self).id_set() =~= ids_after_event(
                old(self).id_set(),
                RegistryEvent::Connected(id@),
            ),
    {
        let n = self.entries.len();
        let mut i: usize = 0;
        while i < n
            invariant
                old(self).wf(),
                i <= n,
                n == self.entries@.len(),
                forall|k: int| 0 <= k < i ==> self.spec_ids()[k] != id@,
                *self == *old(self),
            decreases n - i,
        {
            if crate::text::str_eq(self.entries[i].id.as_str(), id.as_str()) {
                proof {
                    assert(old(self).spec_ids()[i as int] == id@);
                }
                let entry = ClientEntry { id, sender };
                self.entries.set(i, entry);
                proof {
                    let ghost oldids = old(self).spec_ids();
                    assert(self.spec_ids() =~= oldids);
                    assert(self.spec_ids()[i as int] == id@);
                    assert(self.contains_id(id@));
                    assert forall|a: int, b: int|
                        0 <= a < b < self.spec_ids().len() implies self.spec_ids()[a]
                        != self.spec_ids()[b] by {
                        assert(oldids[a] != oldids[b]);
                    }
                }
                return ;
            }
            i += 1;
        }
        self.entries.push(ClientEntry { id, sender });
        proof {
            let ghost oldids = old(self).spec_ids();
            assert(self.spec_ids() =~= oldids.push(id@));
            assert(self.spec_ids()[n as int] == id@);
            assert(self.contains_id(id@));
            assert(!oldids.contains(id@)) by {
                if oldids.contains(id@) {
                    let k = choose|k: int| 0 <= k < oldids.len() && oldids[k] == id@;
                    assert(oldids[k] != id@);
                }
            }
            assert forall|a: int, b: int|
                0 <= a < b < self.spec_ids().len() implies self.spec_ids()[a]
                != self.spec_ids()[b] by {
                if b < n {
                    assert(oldids[a] != oldids[b]);
                } else {
                    assert(self.spec_ids()[a] == oldids[a]);
                    assert(oldids[a] != id@);
                }
            }
            assert forall|other: Seq<char>| other != id@ implies (self.contains_id(other) == old(
                self,
            ).contains_id(other)) by {
                if self.contains_id(other) {
                    let k = choose|k: int|
                        0 <= k < self.spec_ids().len() && self.spec_ids()[k] == other;
                    assert(k < n);
                    assert(oldids[k] == other);
                    assert(oldids.contains(other));
                }
                if oldids.contains(other) {
                    let k = choose|k: int| 0 <= k < oldids.len() && oldids[k] == other;
                    assert(self.spec_ids()[k] == other);
                    assert(self.contains_id(other));
                }
            }
        }
    }

    /// Removes a client. The identifier's entry goes away; every other
    /// entry stays, in order. Removing an unknown identifier changes
    /// nothing.
    pub fn prune(&mut self, id: &String)
        requires
            old(self).wf(),
        ensures
            final(self).wf(),
            !final(self).contains_id(id@),
            forall|other: Seq<char>|
                other != id@ ==> (final(self).contains_id(other) == old(self).contains_id(other)),
            !old(self).contains_id(id@) ==> *final(self) == *old(self),
            final(self).id_set() =~= ids_after_event(
                old(self).id_set(),
                RegistryEvent::Disconnected(id@),
            ),
    {
        let n = self.entries.len();
        let mut i: usize = 0;
        while i < n
            invariant
                old(self).wf(),
                i <= n,
                n == self.entries@.len(),
                forall|k: int| 0 <= k < i ==> self.spec_ids()[k] != id@,
                *self == *old(self),
            decreases n - i,
        {
            if crate::text::str_eq(self.entries[i].id.as_str(), id.as_str()) {
                proof {
                    assert(old(self).spec_ids()[i as int] == id@);
                }
                self.entries.remove(i);
                proof {
                    let ghost oldids = old(self).spec_ids();
                    assert(self.spec_ids() =~= oldids.remove(i as int));
                    // The removed index held the one entry with this
                    // identifier: every other index differs from it.
                    assert forall|j: int|
                        0 <= j < oldids.len() && j != i implies oldids[j] != id@ by {
                        if j < i {
                            assert(oldids[j] != id@);
                        } else {
                            assert(oldids[i as int] != oldids[j]);
                        }
                    }
                    assert forall|k: int|
                        0 <= k < self.spec_ids().len() implies self.spec_ids()[k] == (if k < i {
                            oldids[k]
                        } else {
                            oldids[k + 1]
                        }) by {}
                    assert forall|a: int, b: int|
                        0 <= a < b < self.spec_ids().len() implies self.spec_ids()[a]
                        != self.spec_ids()[b] by {
                        let a0: int = if a < i { a } else { a + 1 };
                        let b0: int = if b < i { b } else { b + 1 };
                        assert(oldids[a0] != oldids[b0]);
                    }
                    assert(!self.contains_id(id@)) by {
                        if self.contains_id(id@) {
                            let k = choose|k: int|
                                0 <= k < self.spec_ids().len() && self.spec_ids()[k] == id@;
                            if k < i {
                                assert(oldids[k] != id@);
                            } else {
                                assert(oldids[k + 1] != id@);
                            }
                        }
                    }
                    assert forall|other: Seq<char>| other != id@ implies (self.contains_id(other)
                        == old(self).contains_id(other)) by {
                        if self.contains_id(other) {
                            let k = choose|k: int|
                                0 <= k < self.spec_ids().len() && self.spec_ids()[k] == other;
                            if k < i {
                                assert(oldids[k] == other);
                            } else {
                                assert(oldids[k + 1] == other);
                            }
                            assert(oldids.contains(other));
                        }
                        if old(self).contains_id(other) {
                            let k = choose|k: int| 0 <= k < oldids.len() && oldids[k] == other;
                            assert(k != i);
                            if k < i {
                                assert(self.spec_ids()[k] == other);
                            } else {
                                assert(self.spec_ids()[k - 1] == other);
                            }
                            assert(self.contains_id(other));
                        }
                    }
                }
                return ;
            }
            i += 1;
        }
        proof {
            assert(!self.contains_id(id@)) by {
                if self.contains_id(id@) {
                    let k = choose|k: int|
                        0 <= k < self.spec_ids().len() && self.spec_ids()[k] == id@;
                }
            }
        }
    }

    /// Looks an identifier up: the registered client's sender, or nothing.
    pub fn lookup(&self, id: &String) -> (r: Option<&async_std::channel::Sender<Command>>)
        ensures
            r is Some <==> self.contains_id(id@),
            r matches Some(s) ==> exists|k: int|
                0 <= k < self.entries@.len() && self.entries@[k].id@ == id@ && *s == self.entries@[
                    k
                ].sender,
    {
        let n = self.entries.len();
        let mut i: usize = 0;
        while i < n
            invariant
                i <= n,
                n == self.entries@.len(),
                forall|k: int| 0 <= k < i ==> self.spec_ids()[k] != id@,
            decreases n - i,
        {
            if crate::text::str_eq(self.entries[i].id.as_str(), id.as_str()) {
                proof {
                    assert(self.spec_ids()[i as int] == id@);
                }
                return Some(&self.entries[i].sender);
            }
            i += 1;
        }
        proof {
            assert(!self.contains_id(id@)) by {
                if self.contains_id(id@) {
                    let k = choose|k: int|
                        0 <= k < self.spec_ids().len() && self.spec_ids()[k] == id@;
                }
            }
        }
        None
    }

    /// Routes one addressed command: the sender of the client it names, or
    /// nothing when that client is not (or no longer) registered — a silent
    /// no-op, never an error.
    pub fn route_send(&self, command: &Command) -> (r: Option<
        &async_std::channel::Sender<Command>,
    >)
        ensures
            command matches Command::SendState(id, _) ==> {
                &&& r is Some <==> self.contains_id(id@)
                &&& (r matches Some(s) ==> exists|k: int|
                    0 <= k < self.entries@.len() && self.entries@[k].id@ == id@ && *s
                        == self.entries@[k].sender)
            },
    {
        match command {
            Command::SendState(id, _) => self.lookup(id),
        }
    }
}

/// A connection event as the registry sees it: a client arriving with an
/// identifier, or that identifier going away.
pub ghost enum RegistryEvent {
    Connected(Seq<char>),
    Disconnected(Seq<char>),
}

/// The registered identifiers after one event: a connect registers the
/// identifier, a disconnect removes it.
pub open spec fn ids_after_event(ids: Set<Seq<char>>, event: RegistryEvent) -> Set<Seq<char>> {
    match event {
        RegistryEvent::Connected(id) => ids.insert(id),
        RegistryEvent::Disconnected(id) => ids.remove(id),
    }
}

/// The registered identifiers after a sequence of events, applied in order.
pub open spec fn ids_after(ids: Set<Seq<char>>, events: Seq<RegistryEvent>) -> Set<Seq<char>>
    decreases events.len(),
{
    if events.len() == 0 {
        ids
    } else {
        ids_after(ids_after_event(ids, events[0]), events.skip(1))
    }
}

/// An identifier that is absent stays absent through events that never
/// reconnect it.
proof fn lemma_absent_preserved(ids: Set<Seq<char>>, events: Seq<RegistryEvent>, id: Seq<char>)
    requires
        !ids.contains(id),
        forall|j: int| 0 <= j < events.len() ==> events[j] != RegistryEvent::Connected(id),
    ensures
        !ids_after(ids, events).contains(id),
    decreases events.len(),
{
    if events.len() > 0 {
        assert(events[0] != RegistryEvent::Connected(id));
        lemma_absent_preserved(ids_after_event(ids, events[0]), events.skip(1), id);
    }
}

/// Registry consistency: over any sequence of connect and disconnect
/// events, an identifier whose last event is its disconnect is not
/// registered afterwards — so a send addressed to it looks up nothing and
/// is a silent no-op, never an error.
pub proof fn lemma_registry_consistency(
    ids: Set<Seq<char>>,
    events: Seq<RegistryEvent>,
    k: int,
    id: Seq<char>,
)
    requires
        0 <= k < events.len(),
        events[k] == RegistryEvent::Disconnected(id),
        forall|j: int| k < j < events.len() ==> events[j] != RegistryEvent::Connected(id),
    ensures
        !ids_after(ids, events).contains(id),
    decreases events.len(),
{
    if k == 0 {
        assert(!ids_after_event(ids, events[0]).contains(id));
        assert(forall|j: int|
            0 <= j < events.skip(1).len() ==> events.skip(1)[j] != RegistryEvent::Connected(id));
        lemma_absent_preserved(ids_after_event(ids, events[0]), events.skip(1), id);
    } else {
        assert(forall|j: int|
            k - 1 < j < events.skip(1).len() ==> events.skip(1)[j] != RegistryEvent::Connected(
                id,
            ));
        lemma_registry_consistency(ids_after_event(ids, events[0]), events.skip(1), k - 1, id);
    }
}

/// The gateway manager: its configuration and the channel pair it hands to
/// the runtime.
#[verifier::reject_recursive_types(C)]
#[verifier::reject_recursive_types(M)]
pub struct Http<C, M> {
    pub config: Configuration,
    pub commands: CommandChannel<C>,
    pub messages: MessageChannel<M>,
}

impl<C, M> Http<C, M> {
    /// A fresh gateway manager with both channel endpoints still attached.
    pub fn new(config: Configuration) -> (r: Self)
        ensures
            r.config == config,
            r.commands.sender is Some,
            r.messages.receiver is Some,
    {
        let (cmd_sender, cmd_receiver) = channel_pair();
        let (msg_sender, msg_receiver) = channel_pair();
        Http {
            config,
            commands: CommandChannel { receiver: cmd_receiver, sender: Some(cmd_sender) },
            messages: MessageChannel { sender: msg_sender, receiver: Some(msg_receiver) },
        }
    }
}

impl<C, M> Effect for Http<C, M> {
    type Message = M;

    type Command = C;

    open spec fn detached(&self) -> bool {
        self.commands.sender is None || self.messages.receiver is None
    }

    open spec fn own_endpoints(
        &self,
        endpoints: &(async_std::channel::Receiver<M>, async_std::channel::Sender<C>),
    ) -> bool {
        self.messages.receiver == Some(endpoints.0) && self.commands.sender == Some(endpoints.1)
    }

    fn detach(&mut self) -> (r: Result<
        (async_std::channel::Receiver<M>, async_std::channel::Sender<C>),
        EffectError,
    >) {
        match self.commands.sender.take() {
            None => Err(EffectError::AlreadyDetached),
            Some(cmd_in) => match self.messages.receiver.take() {
                None => Err(EffectError::AlreadyDetached),
                Some(msg_out) => Ok((msg_out, cmd_in)),
            },
        }
    }
}

} // verus!
