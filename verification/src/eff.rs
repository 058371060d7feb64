//! The generic core of the architecture: an effect runtime that, given a set
//! of registered channel pairs and an application, feeds every arriving
//! message to the application and routes each produced command to the first
//! registered manager whose filter accepts it.

use vstd::prelude::*;

verus! {

/// Why a runtime or manager operation failed.
#[derive(Debug, Clone, Copy, PartialEq, Eq, Structural)]
pub enum EffectError {
    AlreadyDetached,
}

/// A filter deciding whether a given command belongs to one effect manager.
pub trait EffectCommandFilter {
    type Command;

    /// What the filter accepts.
    spec fn accepts(&self, command: &Self::Command) -> bool;

    /// Decides whether the command should be sent to this filter's manager.
    fn sendable(&self, command: &Self::Command) -> (r: bool)
        ensures
            r == self.accepts(command),
    ;
}

/// An effect manager: a subsystem owning one outbound message channel and
/// one inbound command channel, whose endpoints it hands over exactly once.
pub trait Effect {
    type Message;

    type Command;

    /// Whether the channel endpoints were already handed over.
    spec fn detached(&self) -> bool;

    /// Whether a pair of endpoints is this manager's own pair: the message
    /// receiver and the command sender it holds for handover.
    spec fn own_endpoints(
        &self,
        endpoints: &(
            async_std::channel::Receiver<Self::Message>,
            async_std::channel::Sender<Self::Command>,
        ),
    ) -> bool;

    /// Hands over the manager's own channel endpoints. The first call
    /// returns them; every later call fails.
    fn detach(&mut self) -> (r: Result<
        (async_std::channel::Receiver<Self::Message>, async_std::channel::Sender<Self::Command>),
        EffectError,
    >)
        ensures
            final(self).detached(),
            r is Ok <==> !old(self).detached(),
            (r matches Ok(endpoints) ==> old(self).own_endpoints(&endpoints)),
            r is Err ==> r == Err::<
                (
                    async_std::channel::Receiver<Self::Message>,
                    async_std::channel::Sender<Self::Command>,
                ),
                EffectError,
            >(EffectError::AlreadyDetached),
    ;
}

/// The command batch a transition returned: its commands, or none.
pub open spec fn opt_commands<C>(produced: Option<Vec<C>>) -> Seq<C> {
    match produced {
        None => Seq::empty(),
        Some(commands) => commands@,
    }
}

/// The application: a pure transition function from a message to a new state
/// and a batch of commands, plus a once-only initialisation hook.
pub trait Application: Sized {
    type Message;

    type Command;

    type Flags;

    /// The application's own well-formedness, preserved by every
    /// transition.
    spec fn inv(&self) -> bool;

    /// The application's initialisation relation: what the init hook does
    /// with the configuration — which starting state, and which command
    /// batch.
    spec fn boots(self, flags: Self::Flags, next: Self, produced: Seq<Self::Command>) -> bool;

    /// The application's transition relation: what one update step on a
    /// message does — which next state, and which command batch.
    spec fn steps(self, message: Self::Message, next: Self, produced: Seq<Self::Command>) -> bool;

    /// Consumes the starting state and the external configuration, returning
    /// the initial state and any commands to publish before the first frame.
    fn init(self, flags: Self::Flags) -> (r: (Self, Option<Vec<Self::Command>>))
        requires
            self.inv(),
        ensures
            r.0.inv(),
            self.boots(flags, r.0, opt_commands(r.1)),
    ;

    /// Consumes the current state and one message, returning the next state
    /// and the commands it produced.
    fn update(self, message: Self::Message) -> (r: (Self, Option<Vec<Self::Command>>))
        requires
            self.inv(),
        ensures
            r.0.inv(),
            self.steps(message, r.0, opt_commands(r.1)),
    ;
}

/// One registered manager: its message receiver, its command sender, and the
/// filter deciding which commands it gets.
#[verifier::reject_recursive_types(M)]
#[verifier::reject_recursive_types(C)]
pub struct EffectChannels<M, C, F> {
    pub receiver: async_std::channel::Receiver<M>,
    pub sender: async_std::channel::Sender<C>,
    pub filter: F,
}

/// The runtime: the registered managers, in registration order, and the
/// application state they drive.
#[verifier::reject_recursive_types(M)]
#[verifier::reject_recursive_types(C)]
#[verifier::reject_recursive_types(S)]
pub struct EffectRuntime<M, C, A, S, F> where
    A: Application<Message = M, Command = C, Flags = S>,
    F: EffectCommandFilter<Command = C>,
 {
    pub channels: Vec<EffectChannels<M, C, F>>,
    pub application: A,
}

/// The index of the first filter at or after `i` accepting the command, if
/// any: the manager the command is routed to.
pub open spec fn route_from<M, C, F: EffectCommandFilter<Command = C>>(
    chs: Seq<EffectChannels<M, C, F>>,
    command: &C,
    i: int,
) -> Option<int>
    decreases chs.len() - i,
{
    if i < 0 || i >= chs.len() {
        None
    } else if chs[i].filter.accepts(command) {
        Some(i)
    } else {
        route_from(chs, command, i + 1)
    }
}

/// Where a command is routed: the first registered manager accepting it.
pub open spec fn route_of<M, C, F: EffectCommandFilter<Command = C>>(
    chs: Seq<EffectChannels<M, C, F>>,
    command: &C,
) -> Option<int> {
    route_from(chs, command, 0)
}

/// The delivery plan for a batch of commands, in emission order: each
/// command paired with the manager it is routed to; commands no filter
/// accepts are dropped.
pub open spec fn spec_route_all<M, C, F: EffectCommandFilter<Command = C>>(
    chs: Seq<EffectChannels<M, C, F>>,
    produced: Seq<C>,
) -> Seq<(usize, C)>
    decreases produced.len(),
{
    if produced.len() == 0 {
        Seq::empty()
    } else {
        match route_of(chs, &produced[0]) {
            Some(i) => seq![(i as usize, produced[0])] + spec_route_all(chs, produced.skip(1)),
            None => spec_route_all(chs, produced.skip(1)),
        }
    }
}

/// Routing is exclusive: a command goes to at most one manager — the first
/// whose filter accepts it — and goes nowhere exactly when no filter accepts
/// it.
pub proof fn lemma_routing_exclusive<M, C, F: EffectCommandFilter<Command = C>>(
    chs: Seq<EffectChannels<M, C, F>>,
    command: &C,
)
    ensures
        forall|i: int, j: int|
            route_of(chs, command) == Some(i) && route_of(chs, command) == Some(j) ==> i == j,
        route_of(chs, command) matches Some(i) ==> 0 <= i < chs.len()
            && chs[i].filter.accepts(command) && forall|j: int|
            0 <= j < i ==> !(#[trigger] chs[j].filter.accepts(command)),
        route_of(chs, command) is None ==> forall|j: int|
            0 <= j < chs.len() ==> !(#[trigger] chs[j].filter.accepts(command)),
{
    lemma_route_from_first(chs, command, 0);
}

/// The defining facts of the first-match search.
proof fn lemma_route_from_first<M, C, F: EffectCommandFilter<Command = C>>(
    chs: Seq<EffectChannels<M, C, F>>,
    command: &C,
    i: int,
)
    requires
        0 <= i <= chs.len(),
    ensures
        route_from(chs, command, i) matches Some(k) ==> i <= k < chs.len()
            && chs[k].filter.accepts(command) && forall|j: int|
            i <= j < k ==> !(#[trigger] chs[j].filter.accepts(command)),
        route_from(chs, command, i) is None ==> forall|j: int|
            i <= j < chs.len() ==> !(#[trigger] chs[j].filter.accepts(command)),
    decreases chs.len() - i,
{
    if i < chs.len() && !chs[i].filter.accepts(command) {
        lemma_route_from_first(chs, command, i + 1);
    }
}

impl<M, C, A, S, F> EffectRuntime<M, C, A, S, F> where
    A: Application<Message = M, Command = C, Flags = S>,
    F: EffectCommandFilter<Command = C>,
 {
    /// A runtime with no managers registered yet.
    pub fn new(a: A) -> (r: Self)
        ensures
            r.channels@.len() == 0,
            r.application == a,
    {
        EffectRuntime { channels: Vec::new(), application: a }
    }

    /// Detaches the manager's channel pair and stores it, after every
    /// manager registered earlier, together with its command filter.
    pub fn register<E>(&mut self, effect: &mut E, filter: F) -> (r: Result<(), EffectError>)
        where E: Effect<Message = M, Command = C>
        ensures
            final(effect).detached(),
            r is Ok <==> !old(effect).detached(),
            r is Ok ==> final(self).channels@.len() == old(self).channels@.len() + 1
                && final(self).channels@.subrange(0, old(self).channels@.len() as int) == old(
                self,
            ).channels@ && final(self).channels@.last().filter == filter && final(self).application
                == old(self).application && old(effect).own_endpoints(
                &(final(self).channels@.last().receiver, final(self).channels@.last().sender),
            ),
            r is Err ==> *final(self) == *old(self) && r == Err::<(), EffectError>(
                EffectError::AlreadyDetached,
            ),
    {
        match effect.detach() {
            Ok((receiver, sender)) => {
                let ghost endpoints = (receiver, sender);
                self.channels.push(EffectChannels { receiver, sender, filter });
                proof {
                    assert(self.channels@.subrange(0, old(self).channels@.len() as int)
                        =~= old(self).channels@);
                    assert((self.channels@.last().receiver, self.channels@.last().sender)
                        == endpoints);
                }
                Ok(())
            },
            Err(_) => Err(EffectError::AlreadyDetached),
        }
    }

    /// The manager the command is routed to: the first registered one whose
    /// filter accepts it, or none.
    pub fn route(&self, command: &C) -> (r: Option<usize>)
        ensures
            match r {
                Some(i) => route_of(self.channels@, command) == Some(i as int),
                None => route_of(self.channels@, command) is None,
            },
    {
        let n = self.channels.len();
        let mut i: usize = 0;
        while i < n
            invariant
                i <= n,
                n == self.channels@.len(),
                route_of(self.channels@, command) == route_from(self.channels@, command, i as int),
            decreases n - i,
        {
            if self.channels[i].filter.sendable(command) {
                return Some(i);
            }
            i += 1;
        }
        None
    }

    /// Applies one message to the application and plans the delivery of the
    /// produced commands: the returned application and the ghost batch are
    /// the one update step the application takes on this message, and the
    /// plan is exactly one pair per routable command of that batch, in
    /// emission order, each paired with the one manager it is routed to;
    /// commands no filter accepts are dropped.
    pub fn dispatch(self, message: M) -> (r: (Self, Vec<(usize, C)>, Ghost<Seq<C>>))
        requires
            self.application.inv(),
        ensures
            r.0.application.inv(),
            self.application.steps(message, r.0.application, r.2@),
            r.0.channels@ == self.channels@,
            r.1@ == spec_route_all(self.channels@, r.2@),
            forall|k: int|
                0 <= k < r.1@.len() ==> route_of(self.channels@, &r.1@[k].1) == Some(
                    r.1@[k].0 as int,
                ),
    {
        let EffectRuntime { channels, application } = self;
        let (application, produced) = application.update(message);
        let mut next = EffectRuntime { channels, application };
        let mut plan: Vec<(usize, C)> = Vec::new();
        match produced {
            None => {
                proof {
                    assert(plan@ =~= spec_route_all(
                        self.channels@,
                        Seq::<C>::empty(),
                    ));
                }
                (next, plan, Ghost(Seq::empty()))
            },
            Some(mut commands) => {
                let ghost produced_batch = commands@;
                // Deliver in emission order: walk the produced list from the
                // front.
                let total = commands.len();
                let mut taken: usize = 0;
                while taken < total
                    invariant
                        taken <= total,
                        commands@.len() + taken == total,
                        next.channels@ == self.channels@,
                        spec_route_all(self.channels@, produced_batch) == plan@ + spec_route_all(
                            self.channels@,
                            commands@,
                        ),
                        forall|k: int|
                            0 <= k < plan@.len() ==> route_of(self.channels@, &plan@[k].1) == Some(
                                plan@[k].0 as int,
                            ),
                    decreases total - taken,
                {
                    let ghost before = commands@;
                    let command = commands.remove(0);
                    proof {
                        assert(before[0] == command);
                        assert(before.skip(1) =~= commands@);
                    }
                    match next.route(&command) {
                        Some(i) => {
                            plan.push((i, command));
                            proof {
                                assert(spec_route_all(self.channels@, produced_batch) =~= plan@
                                    + spec_route_all(self.channels@, commands@));
                            }
                        },
                        None => {
                            // No registered manager accepts it: dropped, a
                            // wiring mistake rather than a runtime fault.
                        },
                    }
                    taken += 1;
                }
                proof {
                    assert(spec_route_all(self.channels@, commands@) =~= Seq::<(usize, C)>::empty());
                    assert(plan@ =~= spec_route_all(self.channels@, produced_batch));
                }
                (next, plan, Ghost(produced_batch))
            },
        }
    }
}

} // verus!
