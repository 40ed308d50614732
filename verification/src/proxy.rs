//! The proxy's main loop, as a machine that decides and does no I/O.
//!
//! A round of the loop waits for a client where there is none, looks for one
//! more connection, reads from every client, removes the clients whose streams
//! ended, polls every subscription and sends what is due of it, and removes the
//! clients to whom a send failed. [`Proxy::step`] takes what the last action
//! brought and returns the next action.

use crate::client::{Client, ProxyClient};
use crate::ingress::{IngressOutcome, Outcome};
use crate::outbound::{
    broadcast_poll_messages, client_views, due, holds, is_due, outbound_of, outbound_views,
    polled_views, precedes, Broadcast, Delivery, Outbound, PollResult, Polled,
};
use crate::proxy_laws::{plan_is_planned, sending_in_range, step_keeps_wf};
use crate::topics::SUBSCRIPTIONS;
use vstd::prelude::*;

verus! {

/// Where the loop stands: what it is waiting for.
pub enum Phase {
    /// For a first client.
    Accepting,
    /// For the pause after a failed accept.
    BackingOff,
    /// For the answer whether one more client is there.
    Probing,
    /// For a message of this client.
    Receiving { client: usize },
    /// For the outcome of a message of this client to be carried out.
    CarryingOut { client: usize },
    /// For the messages of this subscription.
    Polling { subscription: usize },
    /// For the send number `next` of the broadcast's plan.
    Sending { subscription: usize, broadcast: Broadcast, next: usize },
    /// For nothing: the loop has ended.
    Stopped,
}

/// What an action brought.
pub enum Event<S> {
    /// A client connected.
    Accepted(S),
    /// The accept failed.
    AcceptFailed,
    /// The pause is over.
    Slept,
    /// The pause failed.
    SleepFailed,
    /// No further client is there.
    NoConnection,
    /// The client sent this message.
    Received(Vec<u8>),
    /// The client sent nothing.
    NothingReceived,
    /// The client's stream ended.
    Disconnected,
    /// The outcome has been carried out.
    CarriedOut,
    /// The subscription brought these messages.
    Polled(PollResult),
    /// The subscription failed.
    PollFailed,
    /// The send succeeded.
    Sent,
    /// The send failed.
    SendFailed,
}

/// What to do next.
pub enum Action {
    /// Wait for a client to connect.
    Accept,
    /// Pause for [`BACK_OFF_MS`] before the next accept.
    BackOff,
    /// Look for one more client without waiting.
    TryAccept,
    /// Look for a message of this client without waiting.
    Receive { client: usize },
    /// Publish the message of this client, or note why it is not published.
    CarryOut { client: usize, outcome: IngressOutcome },
    /// Poll this subscription.
    Poll { subscription: usize },
    /// Send these bytes to this client.
    Send { client: usize, bytes: Vec<u8> },
    /// End the loop.
    Stop { reason: StopReason },
}

/// Why the loop ends.
#[derive(Debug, PartialEq, Eq, Clone, Copy)]
pub enum StopReason {
    /// The pause after a failed accept failed.
    SleepFailed,
    /// A subscription failed.
    SubscriptionFailed,
}

/// Pause after a failed accept, in milliseconds.
pub const BACK_OFF_MS: u64 = 100;

/// A [`Phase`] over plain values.
pub enum Stage {
    /// See [`Phase::Accepting`].
    Accepting,
    /// See [`Phase::BackingOff`].
    BackingOff,
    /// See [`Phase::Probing`].
    Probing,
    /// See [`Phase::Receiving`].
    Receiving(int),
    /// See [`Phase::CarryingOut`].
    CarryingOut(int),
    /// See [`Phase::Polling`].
    Polling(int),
    /// See [`Phase::Sending`]; the plan holds the sends that are not answered.
    Sending { subscription: int, messages: Seq<Outbound>, plan: Seq<Delivery> },
    /// See [`Phase::Stopped`].
    Stopped,
}

/// An [`Event`] over plain values.
pub enum Happening<S> {
    /// See [`Event::Accepted`].
    Accepted(S),
    /// See [`Event::AcceptFailed`].
    AcceptFailed,
    /// See [`Event::Slept`].
    Slept,
    /// See [`Event::SleepFailed`].
    SleepFailed,
    /// See [`Event::NoConnection`].
    NoConnection,
    /// See [`Event::Received`].
    Received(Seq<u8>),
    /// See [`Event::NothingReceived`].
    NothingReceived,
    /// See [`Event::Disconnected`].
    Disconnected,
    /// See [`Event::CarriedOut`].
    CarriedOut,
    /// See [`Event::Polled`].
    Polled(Seq<Polled>),
    /// See [`Event::PollFailed`].
    PollFailed,
    /// See [`Event::Sent`].
    Sent,
    /// See [`Event::SendFailed`].
    SendFailed,
}

/// An [`Action`] over plain values.
pub enum Act {
    /// See [`Action::Accept`].
    Accept,
    /// See [`Action::BackOff`].
    BackOff,
    /// See [`Action::TryAccept`].
    TryAccept,
    /// See [`Action::Receive`].
    Receive(int),
    /// See [`Action::CarryOut`].
    CarryOut(int, Outcome),
    /// See [`Action::Poll`].
    Poll(int),
    /// See [`Action::Send`].
    Send(int, Seq<u8>),
    /// See [`Action::Stop`].
    Stop(StopReason),
}

impl View for Phase {
    type V = Stage;

    open spec fn view(&self) -> Stage {
        match *self {
            Phase::Accepting => Stage::Accepting,
            Phase::BackingOff => Stage::BackingOff,
            Phase::Probing => Stage::Probing,
            Phase::Receiving { client } => Stage::Receiving(client as int),
            Phase::CarryingOut { client } => Stage::CarryingOut(client as int),
            Phase::Polling { subscription } => Stage::Polling(subscription as int),
            Phase::Sending { subscription, broadcast, next } => Stage::Sending {
                subscription: subscription as int,
                messages: outbound_views(broadcast.messages@),
                plan: broadcast.plan@.skip(next as int),
            },
            Phase::Stopped => Stage::Stopped,
        }
    }
}

impl<S> View for Event<S> {
    type V = Happening<S>;

    open spec fn view(&self) -> Happening<S> {
        match *self {
            Event::Accepted(stream) => Happening::Accepted(stream),
            Event::AcceptFailed => Happening::AcceptFailed,
            Event::Slept => Happening::Slept,
            Event::SleepFailed => Happening::SleepFailed,
            Event::NoConnection => Happening::NoConnection,
            Event::Received(bytes) => Happening::Received(bytes@),
            Event::NothingReceived => Happening::NothingReceived,
            Event::Disconnected => Happening::Disconnected,
            Event::CarriedOut => Happening::CarriedOut,
            Event::Polled(result) => Happening::Polled(polled_views(result.messages@)),
            Event::PollFailed => Happening::PollFailed,
            Event::Sent => Happening::Sent,
            Event::SendFailed => Happening::SendFailed,
        }
    }
}

impl View for Action {
    type V = Act;

    open spec fn view(&self) -> Act {
        match *self {
            Action::Accept => Act::Accept,
            Action::BackOff => Act::BackOff,
            Action::TryAccept => Act::TryAccept,
            Action::Receive { client } => Act::Receive(client as int),
            Action::CarryOut { client, outcome } => Act::CarryOut(client as int, outcome@),
            Action::Poll { subscription } => Act::Poll(subscription as int),
            Action::Send { client, bytes } => Act::Send(client as int, bytes@),
            Action::Stop { reason } => Act::Stop(reason),
        }
    }
}

/// The indices below `n` that do not stand in `dead`, ascending.
pub open spec fn alive(dead: Seq<usize>, n: nat) -> Seq<int>
    decreases n,
{
    if n == 0 {
        seq![]
    } else {
        let below = alive(dead, (n - 1) as nat);
        if dead.contains((n - 1) as usize) {
            below
        } else {
            below.push(n - 1)
        }
    }
}

/// The items whose index does not stand in `dead`, in order.
pub open spec fn survivors<T>(items: Seq<T>, dead: Seq<usize>) -> Seq<T> {
    let kept = alive(dead, items.len());
    Seq::new(kept.len(), |j: int| items[kept[j]])
}

/// The sends of a plan without the leading ones to `client`.
pub open spec fn past_client(plan: Seq<Delivery>, client: usize) -> Seq<Delivery>
    decreases plan.len(),
{
    if plan.len() > 0 && plan[0].client == client {
        past_client(plan.skip(1), client)
    } else {
        plan
    }
}

/// The state of the loop: the clients, the indices of those that are to be
/// removed, and what the loop is waiting for.
pub struct State<S> {
    /// The connected clients, in the order in which they connected.
    pub clients: Seq<Client<S>>,
    /// Indices of clients that are to be removed.
    pub dead: Seq<usize>,
    /// What the loop is waiting for.
    pub stage: Stage,
}

impl<S> State<S> {
    /// A loop that has just begun.
    pub open spec fn start() -> State<S> {
        State { clients: seq![], dead: seq![], stage: Stage::Accepting }
    }

    /// The same clients, waiting for something else.
    pub open spec fn at(self, stage: Stage) -> State<S> {
        State { stage, ..self }
    }

    /// With one more client.
    pub open spec fn joined_by(self, stream: S) -> State<S> {
        State { clients: self.clients.push(Client::fresh(stream)), ..self }
    }

    /// With one more client to be removed.
    pub open spec fn losing(self, client: int) -> State<S> {
        State { dead: self.dead.push(client as usize), ..self }
    }

    /// With the dead clients removed.
    pub open spec fn swept(self) -> State<S> {
        State { clients: survivors(self.clients, self.dead), dead: seq![], ..self }
    }

    /// A round begins: wait for a client where there is none, else look for one
    /// more.
    pub open spec fn next_round(self) -> (State<S>, Act) {
        if self.clients.len() == 0 {
            (self.at(Stage::Accepting), Act::Accept)
        } else {
            (self.at(Stage::Probing), Act::TryAccept)
        }
    }

    /// Read from client `i` on. After the last client, remove the dead ones and
    /// poll the first subscription.
    pub open spec fn receive_from(self, i: int) -> (State<S>, Act) {
        if i < self.clients.len() {
            (self.at(Stage::Receiving(i)), Act::Receive(i))
        } else {
            self.swept().poll_from(0)
        }
    }

    /// Poll from subscription `j` on. After the last one, remove the dead
    /// clients and begin the next round.
    pub open spec fn poll_from(self, j: int) -> (State<S>, Act) {
        if j < SUBSCRIPTIONS {
            (self.at(Stage::Polling(j)), Act::Poll(j))
        } else {
            self.swept().next_round()
        }
    }

    /// Make the first send of the plan; where it is empty, go on to the next
    /// subscription.
    pub open spec fn send_from(
        self,
        subscription: int,
        messages: Seq<Outbound>,
        plan: Seq<Delivery>,
    ) -> (State<S>, Act) {
        if plan.len() > 0 {
            (
                self.at(Stage::Sending { subscription, messages, plan }),
                Act::Send(plan[0].client as int, messages[plan[0].message as int].bytes),
            )
        } else {
            self.poll_from(subscription + 1)
        }
    }

    /// The event answers what the loop is waiting for.
    pub open spec fn expects(self, event: Happening<S>) -> bool {
        match self.stage {
            Stage::Accepting => event is Accepted || event is AcceptFailed,
            Stage::BackingOff => event is Slept || event is SleepFailed,
            Stage::Probing => event is Accepted || event is NoConnection,
            Stage::Receiving(_) => event is Received || event is NothingReceived
                || event is Disconnected,
            Stage::CarryingOut(_) => event is CarriedOut,
            Stage::Polling(_) => event is Polled || event is PollFailed,
            Stage::Sending { .. } => event is Sent || event is SendFailed,
            Stage::Stopped => false,
        }
    }

    /// The state after an event, and the next action.
    pub open spec fn step(self, event: Happening<S>) -> (State<S>, Act) {
        match (self.stage, event) {
            // The first client may be followed by another in the same round.
            (Stage::Accepting, Happening::Accepted(stream)) => {
                self.joined_by(stream).next_round()
            },
            (Stage::Accepting, _) => (self.at(Stage::BackingOff), Act::BackOff),
            (Stage::BackingOff, Happening::Slept) => self.next_round(),
            (Stage::BackingOff, _) => {
                (self.at(Stage::Stopped), Act::Stop(StopReason::SleepFailed))
            },
            (Stage::Probing, Happening::Accepted(stream)) => {
                self.joined_by(stream).receive_from(0)
            },
            (Stage::Probing, _) => self.receive_from(0),
            (Stage::Receiving(i), Happening::Received(bytes)) => (
                State {
                    clients: self.clients.update(i, self.clients[i].after(bytes)),
                    stage: Stage::CarryingOut(i),
                    ..self
                },
                Act::CarryOut(i, self.clients[i].outcome(bytes)),
            ),
            (Stage::Receiving(i), Happening::Disconnected) => {
                self.losing(i).receive_from(i + 1)
            },
            (Stage::Receiving(i), _) => self.receive_from(i + 1),
            (Stage::CarryingOut(i), _) => self.receive_from(i + 1),
            (Stage::Polling(j), Happening::Polled(polled)) => {
                let messages = outbound_of(polled);
                self.send_from(
                    j,
                    messages,
                    due(self.clients, self.dead, messages, self.clients.len()),
                )
            },
            (Stage::Polling(_), _) => {
                (self.at(Stage::Stopped), Act::Stop(StopReason::SubscriptionFailed))
            },
            (Stage::Sending { subscription, messages, plan }, Happening::Sent) => {
                self.send_from(subscription, messages, plan.skip(1))
            },
            // The other messages for a stream whose send failed are skipped.
            (Stage::Sending { subscription, messages, plan }, _) => {
                let client = plan[0].client;
                self.losing(client as int).send_from(
                    subscription,
                    messages,
                    past_client(plan.skip(1), client),
                )
            },
            (Stage::Stopped, _) => (self, Act::Stop(StopReason::SubscriptionFailed)),
        }
    }

    /// What holds of the clients at every moment: those to be removed are among
    /// them, and each is bound to a well-formed principal or to none.
    pub open spec fn sound(self) -> bool {
        &&& self.clients.len() <= usize::MAX
        &&& forall|k: int|
            0 <= k < self.dead.len() ==> (#[trigger] self.dead[k]) < self.clients.len()
        &&& forall|i: int|
            0 <= i < self.clients.len() ==> (#[trigger] self.clients[i]).well_bound()
    }

    /// What holds of the loop at every moment: it waits for a first client only
    /// while there is none, no client is to be removed when a round begins, the
    /// indices it keeps are those of clients, subscriptions and messages, and the
    /// sends of a plan are due and in order.
    pub open spec fn wf(self) -> bool {
        &&& self.sound()
        &&& match self.stage {
            Stage::Accepting => self.clients.len() == 0 && self.dead.len() == 0,
            Stage::BackingOff => self.clients.len() == 0 && self.dead.len() == 0,
            Stage::Probing => self.clients.len() > 0 && self.dead.len() == 0,
            Stage::Receiving(i) => 0 <= i < self.clients.len(),
            Stage::CarryingOut(i) => 0 <= i < self.clients.len(),
            Stage::Polling(j) => 0 <= j < SUBSCRIPTIONS,
            Stage::Sending { subscription, messages, plan } => {
                &&& 0 <= subscription < SUBSCRIPTIONS
                &&& messages.len() <= usize::MAX
                &&& plan.len() > 0
                &&& planned(self.clients, self.dead, messages, plan)
            },
            Stage::Stopped => true,
        }
    }
}

/// Every send of the plan is due, and they are in order.
pub open spec fn planned<S>(
    clients: Seq<Client<S>>,
    dead: Seq<usize>,
    messages: Seq<Outbound>,
    plan: Seq<Delivery>,
) -> bool {
    &&& forall|k: int|
        0 <= k < plan.len() ==> is_due(clients, dead, messages, #[trigger] plan[k])
    &&& forall|j: int, k: int|
        0 <= j < k < plan.len() ==> precedes(#[trigger] plan[j], #[trigger] plan[k])
}

/// The clients, the ones to be removed, and where the loop stands.
pub struct Proxy<S> {
    pub clients: Vec<ProxyClient<S>>,
    pub dead: Vec<usize>,
    pub phase: Phase,
}

impl<S> View for Proxy<S> {
    type V = State<S>;

    open spec fn view(&self) -> State<S> {
        State {
            clients: client_views(self.clients@),
            dead: self.dead@,
            stage: self.phase@,
        }
    }
}

impl<S> Proxy<S> {
    /// What holds of the loop at every moment; see [`State::wf`].
    pub open spec fn wf(self) -> bool {
        &&& self@.wf()
        &&& self.phase matches Phase::Sending { broadcast, next, .. } ==> next
            < broadcast.plan@.len()
    }

    /// A proxy without clients. Its first action is [`Action::Accept`].
    pub fn new() -> (r: Self)
        ensures
            r.wf(),
            r@ == State::<S>::start(),
    {
        let proxy = Proxy { clients: Vec::new(), dead: Vec::new(), phase: Phase::Accepting };
        assert(proxy@.clients =~= seq![]);
        assert(proxy@.dead =~= seq![]);
        proxy
    }

    /// Whether the event answers what the loop is waiting for.
    pub fn is_expected(&self, event: &Event<S>) -> (r: bool)
        ensures
            r == self@.expects(event@),
    {
        match (&self.phase, event) {
            (Phase::Accepting, Event::Accepted(_)) => true,
            (Phase::Accepting, Event::AcceptFailed) => true,
            (Phase::BackingOff, Event::Slept) => true,
            (Phase::BackingOff, Event::SleepFailed) => true,
            (Phase::Probing, Event::Accepted(_)) => true,
            (Phase::Probing, Event::NoConnection) => true,
            (Phase::Receiving { .. }, Event::Received(_)) => true,
            (Phase::Receiving { .. }, Event::NothingReceived) => true,
            (Phase::Receiving { .. }, Event::Disconnected) => true,
            (Phase::CarryingOut { .. }, Event::CarriedOut) => true,
            (Phase::Polling { .. }, Event::Polled(_)) => true,
            (Phase::Polling { .. }, Event::PollFailed) => true,
            (Phase::Sending { .. }, Event::Sent) => true,
            (Phase::Sending { .. }, Event::SendFailed) => true,
            _ => false,
        }
    }

    /// Advance the loop by the event that the last action brought, and return
    /// the next action.
    pub fn step(&mut self, event: Event<S>) -> (r: Action)
        requires
            old(self).wf(),
            old(self)@.expects(event@),
        ensures
            final(self).wf(),
            (final(self)@, r@) == old(self)@.step(event@),
    {
        let ghost state = self@;
        let ghost happening = event@;
        let mut phase = Phase::Stopped;
        std::mem::swap(&mut phase, &mut self.phase);
        let action = match (phase, event) {
            (Phase::Accepting, Event::Accepted(stream)) => {
                self.join(stream);
                assert(self@.clients.len() == self.clients.len());
                self.next_round()
            },
            (Phase::Accepting, _) => {
                self.phase = Phase::BackingOff;
                Action::BackOff
            },
            (Phase::BackingOff, Event::Slept) => self.next_round(),
            (Phase::BackingOff, _) => Action::Stop { reason: StopReason::SleepFailed },
            (Phase::Probing, Event::Accepted(stream)) => {
                self.join(stream);
                assert(self@.clients.len() == self.clients.len());
                self.receive_from(0)
            },
            (Phase::Probing, _) => self.receive_from(0),
            (Phase::Receiving { client }, Event::Received(bytes)) => {
                let outcome = self.clients[client].receive(bytes.as_slice());
                self.phase = Phase::CarryingOut { client };
                assert(self@.clients =~= state.clients.update(
                    client as int,
                    state.clients[client as int].after(bytes@),
                ));
                Action::CarryOut { client, outcome }
            },
            (Phase::Receiving { client }, Event::Disconnected) => {
                self.dead.push(client);
                self.receive_from(client + 1)
            },
            (Phase::Receiving { client }, _) => self.receive_from(client + 1),
            (Phase::CarryingOut { client }, _) => self.receive_from(client + 1),
            (Phase::Polling { subscription }, Event::Polled(result)) => {
                let broadcast = broadcast_poll_messages(&self.clients, &result, &self.dead);
                proof {
                    assert(broadcast.plan@.skip(0) =~= broadcast.plan@);
                    assert(broadcast.messages.len() == broadcast.messages@.len());
                    assert(result.messages.len() == result.messages@.len());
                    plan_is_planned(state.clients, state.dead, outbound_views(broadcast.messages@));
                }
                self.send_from(subscription, broadcast, 0)
            },
            (Phase::Polling { .. }, _) => Action::Stop { reason: StopReason::SubscriptionFailed },
            (Phase::Sending { subscription, broadcast, next }, Event::Sent) => {
                assert(next < broadcast.plan.len());
                proof {
                    sending_in_range(state, broadcast, next);
                }
                assert(broadcast.plan@.skip(next as int).skip(1) =~= broadcast.plan@.skip(next + 1));
                self.send_from(subscription, broadcast, next + 1)
            },
            (Phase::Sending { subscription, broadcast, next }, _) => {
                proof {
                    sending_in_range(state, broadcast, next);
                }
                let client = broadcast.plan[next].client;
                self.dead.push(client);
                assert(next < broadcast.plan.len());
                let mut following: usize = next + 1;
                assert(broadcast.plan@.skip(next as int).skip(1) =~= broadcast.plan@.skip(next + 1));
                while following < broadcast.plan.len() && broadcast.plan[following].client == client
                    invariant
                        next < following <= broadcast.plan@.len(),
                        past_client(broadcast.plan@.skip(next + 1), client) == past_client(
                            broadcast.plan@.skip(following as int),
                            client,
                        ),
                    decreases broadcast.plan@.len() - following,
                {
                    assert(broadcast.plan@.skip(following as int).skip(1)
                        =~= broadcast.plan@.skip(following + 1));
                    following += 1;
                }
                self.send_from(subscription, broadcast, following)
            },
            (Phase::Stopped, _) => Action::Stop { reason: StopReason::SubscriptionFailed },
        };
        proof {
            step_keeps_wf(state, happening);
        }
        action
    }

    /// One more client.
    fn join(&mut self, stream: S)
        ensures
            final(self)@ == old(self)@.joined_by(stream),
            final(self).phase == old(self).phase,
    {
        let ghost state = self@;
        self.clients.push(ProxyClient::new(stream));
        assert(self@.clients =~= state.joined_by(stream).clients);
    }

    /// Remove the dead clients, the last one first so that indices keep their
    /// meaning. Dropping a client drops its stream.
    fn sweep(&mut self)
        ensures
            final(self)@ == old(self)@.swept(),
            final(self).phase == old(self).phase,
    {
        let ghost who = self@.clients;
        let ghost dead = self.dead@;
        let ghost n = who.len();
        let ghost mut tail: Seq<int> = seq![];
        let mut i: usize = self.clients.len();
        while i > 0
            invariant
                i <= n,
                n == who.len(),
                self.dead@ == dead,
                self.phase == old(self).phase,
                alive(dead, n) =~= alive(dead, i as nat) + tail,
                forall|j: int| 0 <= j < tail.len() ==> i <= #[trigger] tail[j] < n,
                self@.clients =~= who.take(i as int) + Seq::new(
                    tail.len(),
                    |j: int| who[tail[j]],
                ),
            decreases i,
        {
            i -= 1;
            let ghost old_tail = tail;
            let ghost old_clients = self@.clients;
            if holds(&self.dead, i) {
                assert(old_clients.len() == self.clients@.len());
                self.clients.remove(i);
                assert(self@.clients =~= old_clients.remove(i as int));
            } else {
                proof {
                    tail = seq![i as int] + old_tail;
                    assert(alive(dead, (i + 1) as nat) == alive(dead, i as nat).push(i as int));
                }
            }
        }
        proof {
            assert(alive(dead, n) =~= tail);
            assert(self@.clients =~= survivors(who, dead));
        }
        self.dead.clear();
        assert(self@.dead =~= seq![]);
    }

    /// Begin a round.
    fn next_round(&mut self) -> (r: Action)
        ensures
            (final(self)@, r@) == old(self)@.next_round(),
    {
        if self.clients.len() == 0 {
            self.phase = Phase::Accepting;
            Action::Accept
        } else {
            self.phase = Phase::Probing;
            Action::TryAccept
        }
    }

    /// Read from client `i` on.
    fn receive_from(&mut self, i: usize) -> (r: Action)
        ensures
            (final(self)@, r@) == old(self)@.receive_from(i as int),
    {
        if i < self.clients.len() {
            self.phase = Phase::Receiving { client: i };
            Action::Receive { client: i }
        } else {
            self.sweep();
            self.poll_from(0)
        }
    }

    /// Poll from subscription `j` on.
    fn poll_from(&mut self, j: usize) -> (r: Action)
        ensures
            (final(self)@, r@) == old(self)@.poll_from(j as int),
    {
        if j < SUBSCRIPTIONS {
            self.phase = Phase::Polling { subscription: j };
            Action::Poll { subscription: j }
        } else {
            self.sweep();
            self.next_round()
        }
    }

    /// Make the send number `next` of the broadcast.
    fn send_from(&mut self, subscription: usize, broadcast: Broadcast, next: usize) -> (r: Action)
        requires
            subscription < SUBSCRIPTIONS,
            next <= broadcast.plan@.len(),
            forall|k: int|
                next <= k < broadcast.plan@.len() ==> (#[trigger] broadcast.plan@[k]).message
                    < broadcast.messages@.len(),
        ensures
            (final(self)@, r@) == old(self)@.send_from(
                subscription as int,
                outbound_views(broadcast.messages@),
                broadcast.plan@.skip(next as int),
            ),
            final(self).phase matches Phase::Sending { broadcast, next, .. } ==> next
                < broadcast.plan@.len(),
    {
        if next < broadcast.plan.len() {
            let delivery = broadcast.plan[next];
            let bytes = broadcast.messages[delivery.message].bytes.clone();
            assert(bytes@ =~= broadcast.messages@[delivery.message as int].bytes@);
            self.phase = Phase::Sending { subscription, broadcast, next };
            Action::Send { client: delivery.client, bytes }
        } else {
            self.poll_from(subscription + 1)
        }
    }
}

} // verus!
