//! Laws of the proxy's loop.

use crate::binding::valid_principal;
use crate::client::{
    first_principal, forwards_as_itself, known_by_what_it_sent, latest_session,
    message_keeps_well_bound, Client,
};
use crate::ingress::{Disposition, IngressOutcome};
use crate::json::json_encoding;
use crate::outbound::{
    broadcast_is_exact, delivers, due, is_due, outbound_covers_the_poll, outbound_of,
    outbound_views, polled_views, precedes, Broadcast, Delivery, Outbound, PollResult, Polled,
};
use crate::proxy::{
    alive, past_client, planned, survivors, Act, Action, Event, Happening, Proxy, Stage, State,
    StopReason,
};
use crate::session::session_scope;
use crate::topics::{allowed_topic, SUBSCRIPTIONS};
use vstd::prelude::*;

verus! {

/// The plan of a broadcast holds sends that are due, in order.
pub(crate) proof fn plan_is_planned<S>(clients: Seq<Client<S>>, dead: Seq<usize>, messages: Seq<Outbound>)
    requires
        clients.len() <= usize::MAX,
        messages.len() <= usize::MAX,
    ensures
        planned(clients, dead, messages, due(clients, dead, messages, clients.len())),
{
    let plan = due(clients, dead, messages, clients.len());
    broadcast_is_exact(clients, dead, messages);
    assert forall|k: int| 0 <= k < plan.len() implies is_due(
        clients,
        dead,
        messages,
        #[trigger] plan[k],
    ) by {
        assert(plan.contains(plan[k]));
    }
}

/// The sends that are left of a broadcast are of its messages.
pub(crate) proof fn sending_in_range<S>(state: State<S>, broadcast: Broadcast, next: usize)
    requires
        next <= broadcast.plan@.len(),
        planned(
            state.clients,
            state.dead,
            outbound_views(broadcast.messages@),
            broadcast.plan@.skip(next as int),
        ),
    ensures
        forall|k: int|
            next <= k < broadcast.plan@.len() ==> (#[trigger] broadcast.plan@[k]).message
                < broadcast.messages@.len(),
{
    let plan = broadcast.plan@.skip(next as int);
    assert forall|k: int| next <= k < broadcast.plan@.len() implies (
    #[trigger] broadcast.plan@[k]).message < broadcast.messages@.len() by {
        assert(plan[k - next] == broadcast.plan@[k]);
    }
}

/// Which indices [`alive`] lists: those below `n` that are not dead, ascending.
proof fn alive_lists(dead: Seq<usize>, n: nat)
    requires
        n <= usize::MAX,
    ensures
        forall|i: int|
            #[trigger] alive(dead, n).contains(i) <==> 0 <= i < n && !dead.contains(i as usize),
        forall|j: int, k: int|
            0 <= j < k < alive(dead, n).len() ==> #[trigger] alive(dead, n)[j]
                < #[trigger] alive(dead, n)[k],
    decreases n,
{
    if n > 0 {
        alive_lists(dead, (n - 1) as nat);
        let below = alive(dead, (n - 1) as nat);
        let list = alive(dead, n);
        if !dead.contains((n - 1) as usize) {
            assert forall|i: int|
                #[trigger] list.contains(i) <==> 0 <= i < n && !dead.contains(i as usize) by {
                if list.contains(i) {
                    let j = choose|j: int| 0 <= j < list.len() && list[j] == i;
                    if j < below.len() {
                        assert(below[j] == i);
                        assert(below.contains(i));
                    }
                }
                if 0 <= i < n && !dead.contains(i as usize) {
                    if i == n - 1 {
                        assert(list[below.len() as int] == i);
                    } else {
                        assert(below.contains(i));
                        let j = choose|j: int| 0 <= j < below.len() && below[j] == i;
                        assert(list[j] == i);
                    }
                }
            }
            assert forall|j: int, k: int| 0 <= j < k < list.len() implies #[trigger] list[j]
                < #[trigger] list[k] by {
                assert(below.contains(below[j]));
            }
        }
    }
}

/// Every survivor is one of the items.
proof fn survivors_are_items<T>(items: Seq<T>, dead: Seq<usize>)
    requires
        items.len() <= usize::MAX,
    ensures
        survivors(items, dead).len() <= items.len(),
        forall|j: int|
            0 <= j < survivors(items, dead).len() ==> {
                &&& 0 <= #[trigger] alive(dead, items.len())[j] < items.len()
                &&& survivors(items, dead)[j] == items[alive(dead, items.len())[j]]
            },
{
    let kept = alive(dead, items.len());
    alive_lists(dead, items.len());
    assert forall|j: int| 0 <= j < kept.len() implies 0 <= #[trigger] kept[j] < items.len() by {
        assert(kept.contains(kept[j]));
    }
    alive_is_short(dead, items.len());
}

/// There are at most `n` indices below `n`.
proof fn alive_is_short(dead: Seq<usize>, n: nat)
    ensures
        alive(dead, n).len() <= n,
    decreases n,
{
    if n > 0 {
        alive_is_short(dead, (n - 1) as nat);
    }
}

/// Removing the dead clients keeps what holds of the clients.
proof fn sweeping_is_sound<S>(state: State<S>)
    requires
        state.sound(),
    ensures
        state.swept().sound(),
{
    survivors_are_items(state.clients, state.dead);
    let kept = alive(state.dead, state.clients.len());
    assert forall|i: int| 0 <= i < state.swept().clients.len() implies (
    #[trigger] state.swept().clients[i]).well_bound() by {
        assert(state.clients[kept[i]].well_bound());
    }
}

/// The sends of a plan after the leading ones to `client`: what is left is still
/// planned, and holds exactly the sends to others.
proof fn past_client_is_planned<S>(
    clients: Seq<Client<S>>,
    dead: Seq<usize>,
    messages: Seq<Outbound>,
    plan: Seq<Delivery>,
    client: usize,
)
    requires
        planned(clients, dead, messages, plan),
        forall|k: int| 0 <= k < plan.len() ==> (#[trigger] plan[k]).client >= client,
    ensures
        planned(clients, dead.push(client), messages, past_client(plan, client)),
        forall|d: Delivery|
            #[trigger] past_client(plan, client).contains(d) <==> plan.contains(d) && d.client
                != client,
    decreases plan.len(),
{
    if plan.len() > 0 && plan[0].client == client {
        let rest = plan.skip(1);
        assert forall|k: int| 0 <= k < rest.len() implies is_due(
            clients,
            dead,
            messages,
            #[trigger] rest[k],
        ) && rest[k].client >= client by {
            assert(rest[k] == plan[k + 1]);
        }
        assert forall|j: int, k: int| 0 <= j < k < rest.len() implies precedes(
            #[trigger] rest[j],
            #[trigger] rest[k],
        ) by {
            assert(precedes(plan[j + 1], plan[k + 1]));
        }
        past_client_is_planned(clients, dead, messages, rest, client);
        assert forall|d: Delivery|
            #[trigger] past_client(plan, client).contains(d) <==> plan.contains(d) && d.client
                != client by {
            if plan.contains(d) && d.client != client {
                let k = choose|k: int| 0 <= k < plan.len() && plan[k] == d;
                assert(rest[k - 1] == d);
                assert(rest.contains(d));
            }
            if rest.contains(d) {
                let k = choose|k: int| 0 <= k < rest.len() && rest[k] == d;
                assert(plan[k + 1] == d);
            }
        }
    } else {
        assert forall|k: int| 0 <= k < plan.len() implies (#[trigger] plan[k]).client
            != client by {
            if k > 0 {
                assert(precedes(plan[0], plan[k]));
            }
        }
        assert forall|k: int| 0 <= k < plan.len() implies is_due(
            clients,
            dead.push(client),
            messages,
            #[trigger] plan[k],
        ) by {
            let more = dead.push(client);
            if more.contains(plan[k].client) {
                let m = choose|m: int| 0 <= m < more.len() && more[m] == plan[k].client;
                if m < dead.len() {
                    assert(dead[m] == plan[k].client);
                    assert(dead.contains(plan[k].client));
                }
            }
        }
    }
}

/// The sends of a plan after the first are planned, and come no earlier.
proof fn rest_is_planned<S>(
    clients: Seq<Client<S>>,
    dead: Seq<usize>,
    messages: Seq<Outbound>,
    plan: Seq<Delivery>,
)
    requires
        plan.len() > 0,
        planned(clients, dead, messages, plan),
    ensures
        planned(clients, dead, messages, plan.skip(1)),
        forall|k: int|
            0 <= k < plan.skip(1).len() ==> (#[trigger] plan.skip(1)[k]).client >= plan[0].client,
{
    let rest = plan.skip(1);
    assert forall|k: int| 0 <= k < rest.len() implies is_due(
        clients,
        dead,
        messages,
        #[trigger] rest[k],
    ) && rest[k].client >= plan[0].client by {
        assert(rest[k] == plan[k + 1]);
        assert(precedes(plan[0], plan[k + 1]));
    }
    assert forall|j: int, k: int| 0 <= j < k < rest.len() implies precedes(
        #[trigger] rest[j],
        #[trigger] rest[k],
    ) by {
        assert(precedes(plan[j + 1], plan[k + 1]));
    }
}

/// Every step keeps what holds of the loop.
pub proof fn step_keeps_wf<S>(state: State<S>, event: Happening<S>)
    requires
        state.wf(),
        state.expects(event),
        fits(state, event),
    ensures
        state.step(event).0.wf(),
{
    sweeping_is_sound(state);
    match (state.stage, event) {
        (Stage::Probing, Happening::Accepted(stream)) => {
            sweeping_is_sound(state.joined_by(stream));
        },
        (Stage::Receiving(i), Happening::Received(bytes)) => {
            message_keeps_well_bound(state.clients[i], bytes);
        },
        (Stage::Receiving(i), Happening::Disconnected) => {
            sweeping_is_sound(state.losing(i));
        },
        (Stage::Polling(j), Happening::Polled(polled)) => {
            let messages = outbound_of(polled);
            outbound_is_short(polled);
            plan_is_planned(state.clients, state.dead, messages);
        },
        (Stage::Sending { subscription, messages, plan }, Happening::Sent) => {
            rest_is_planned(state.clients, state.dead, messages, plan);
        },
        (Stage::Sending { subscription, messages, plan }, _) => {
            let client = plan[0].client;
            rest_is_planned(state.clients, state.dead, messages, plan);
            past_client_is_planned(state.clients, state.dead, messages, plan.skip(1), client);
            sweeping_is_sound(state.losing(client as int));
        },
        _ => {},
    }
}

/// A poll has at most as many outbound messages as messages.
pub(crate) proof fn outbound_is_short(polled: Seq<Polled>)
    ensures
        outbound_of(polled).len() <= polled.len(),
    decreases polled.len(),
{
    if polled.len() > 0 {
        outbound_is_short(polled.drop_last());
    }
}

/// The lists that an event brings fit in memory.
pub open spec fn fits<S>(state: State<S>, event: Happening<S>) -> bool {
    match event {
        Happening::Accepted(_) => state.clients.len() < usize::MAX,
        Happening::Polled(polled) => polled.len() <= usize::MAX,
        _ => true,
    }
}

/// The loop after a list of events, and the last action.
pub open spec fn run<S>(events: Seq<Happening<S>>) -> (State<S>, Act)
    decreases events.len(),
{
    if events.len() == 0 {
        (State::start(), Act::Accept)
    } else {
        run(events.drop_last()).0.step(events.last())
    }
}

/// Each of the events answers what the loop was waiting for.
pub open spec fn answered<S>(events: Seq<Happening<S>>) -> bool
    decreases events.len(),
{
    events.len() == 0 || {
        &&& answered(events.drop_last())
        &&& run(events.drop_last()).0.expects(events.last())
        &&& fits(run(events.drop_last()).0, events.last())
    }
}

/// The action asks for what the state is waiting for.
pub open spec fn asks_for<S>(state: State<S>, act: Act) -> bool {
    match act {
        Act::Accept => state.stage is Accepting,
        Act::BackOff => state.stage is BackingOff,
        Act::TryAccept => state.stage is Probing,
        Act::Receive(i) => state.stage == Stage::Receiving(i) && 0 <= i < state.clients.len(),
        Act::CarryOut(i, _) => state.stage == Stage::CarryingOut(i) && 0 <= i
            < state.clients.len(),
        Act::Poll(j) => state.stage == Stage::Polling(j) && 0 <= j < SUBSCRIPTIONS,
        Act::Send(i, _) => state.stage is Sending && 0 <= i < state.clients.len(),
        Act::Stop(_) => state.stage is Stopped,
    }
}

/// At every moment of every run the loop is in order, and its last action asks
/// for what it waits for, of a client or a subscription that exists.
pub proof fn always_in_order<S>(events: Seq<Happening<S>>)
    requires
        answered(events),
    ensures
        run(events).0.wf(),
        asks_for(run(events).0, run(events).1),
    decreases events.len(),
{
    if events.len() > 0 {
        always_in_order(events.drop_last());
        let state = run(events.drop_last()).0;
        step_keeps_wf(state, events.last());
    }
}

/// What is sent to a client is due to it: the client is live, and the bytes are
/// those of a message whose principal and session gates it clears.
pub proof fn sends_only_what_is_due<S>(state: State<S>, event: Happening<S>)
    requires
        state.wf(),
        state.expects(event),
        fits(state, event),
    ensures
        state.step(event) matches (next, Act::Send(i, bytes)) ==> {
            &&& 0 <= i < next.clients.len()
            &&& !next.dead.contains(i as usize)
            &&& next.stage matches Stage::Sending { messages, plan, .. } && {
                let message = messages[plan[0].message as int];
                &&& plan[0].client == i
                &&& message.bytes == bytes
                &&& message.goes_to(next.clients[i])
            }
        },
{
    step_keeps_wf(state, event);
    let next = state.step(event).0;
    if let Stage::Sending { messages, plan, .. } = next.stage {
        assert(is_due(next.clients, next.dead, messages, plan[0]));
    }
}

/// The messages that the latest poll brought.
pub open spec fn last_polled<S>(events: Seq<Happening<S>>) -> Seq<Polled>
    decreases events.len(),
{
    if events.len() == 0 {
        seq![]
    } else {
        match events.last() {
            Happening::Polled(polled) => polled,
            _ => last_polled(events.drop_last()),
        }
    }
}

/// What is being sent is what the latest poll brought.
proof fn sending_what_was_polled<S>(events: Seq<Happening<S>>)
    requires
        answered(events),
    ensures
        run(events).0.stage matches Stage::Sending { messages, .. } ==> messages == outbound_of(
            last_polled(events),
        ),
    decreases events.len(),
{
    if events.len() > 0 {
        sending_what_was_polled(events.drop_last());
    }
}

/// Whether message `p` goes to a client, by its principal and its session.
pub open spec fn meant_for<S>(p: Polled, client: Client<S>) -> bool {
    delivers(
        p.target,
        session_scope(p.topic, p.payload_json()),
        client.principal,
        client.session_id,
    )
}

/// Nothing leaks: in every run, what is sent to a client are the wire bytes of a
/// message that the latest poll brought and that is meant for that client. So no
/// client receives a message of another principal, nor a chat response of another
/// conversation.
pub proof fn nothing_leaks<S>(events: Seq<Happening<S>>)
    requires
        answered(events),
    ensures
        run(events) matches (state, Act::Send(i, bytes)) ==> exists|k: int|
            {
                &&& 0 <= k < last_polled(events).len()
                &&& json_encoding((#[trigger] last_polled(events)[k]).wire()) == Some(bytes)
                &&& meant_for(last_polled(events)[k], state.clients[i])
            },
{
    if let (state, Act::Send(i, bytes)) = run(events) {
        let polled = last_polled(events);
        always_in_order(events.drop_last());
        sends_only_what_is_due(run(events.drop_last()).0, events.last());
        sending_what_was_polled(events);
        if let Stage::Sending { messages, plan, .. } = state.stage {
            let message = messages[plan[0].message as int];
            always_in_order(events);
            assert(is_due(state.clients, state.dead, messages, plan[0]));
            assert(messages.contains(message));
            outbound_covers_the_poll(polled);
            let k = choose|k: int|
                0 <= k < polled.len() && #[trigger] polled[k].outbound() == Some(message);
            assert(json_encoding(polled[k].wire()) == Some(bytes));
            assert(meant_for(polled[k], state.clients[i]));
        }
    }
}

/// What is published for a client goes out under the principal that the client
/// is bound to, which is well-formed, and on a topic that clients may publish to.
pub proof fn publishes_only_as_the_client<S>(state: State<S>, event: Happening<S>)
    requires
        state.wf(),
        state.expects(event),
        fits(state, event),
    ensures
        state.step(event) matches (next, Act::CarryOut(i, outcome)) ==> (
        outcome.disposition matches Disposition::Forward { topic, principal, .. } ==> {
            &&& next.clients[i].principal == Some(principal)
            &&& valid_principal(principal)
            &&& allowed_topic(topic)
        }),
{
    step_keeps_wf(state, event);
    if let Happening::Received(bytes) = event {
        if let Stage::Receiving(i) = state.stage {
            forwards_as_itself(state.clients[i], bytes);
            assert(state.step(event).0.clients[i].well_bound());
        }
    }
}

/// `new` is `old` later in its life: the same stream, and the same principal
/// where it had one.
pub open spec fn continues<S>(old: Client<S>, new: Client<S>) -> bool {
    &&& new.stream == old.stream
    &&& old.principal is Some ==> new.principal == old.principal
}

/// No step rebinds a client: each client afterwards is one from before, with
/// the principal that it was bound to if it was, or has just connected and is
/// unbound.
pub proof fn no_step_rebinds<S>(state: State<S>, event: Happening<S>)
    requires
        state.wf(),
        state.expects(event),
        fits(state, event),
    ensures
        forall|j: int|
            0 <= j < state.step(event).0.clients.len() ==> {
                ||| event matches Happening::Accepted(stream)
                    && #[trigger] state.step(event).0.clients[j] == Client::fresh(stream)
                ||| exists|i: int|
                    0 <= i < state.clients.len() && #[trigger] continues(
                        state.clients[i],
                        state.step(event).0.clients[j],
                    )
            },
{
    let next = state.step(event).0;
    match event {
        Happening::Accepted(stream) => {
            let joined = state.joined_by(stream);
            assert forall|j: int| 0 <= j < next.clients.len() implies {
                ||| #[trigger] next.clients[j] == Client::fresh(stream)
                ||| exists|i: int|
                    0 <= i < state.clients.len() && #[trigger] continues(
                        state.clients[i],
                        next.clients[j],
                    )
            } by {
                assert(next.clients == joined.clients);
                if j < state.clients.len() {
                    assert(continues(state.clients[j], next.clients[j]));
                }
            }
        },
        _ => {
            let lost = match (state.stage, event) {
                (Stage::Receiving(i), Happening::Disconnected) => state.losing(i).dead,
                (Stage::Sending { plan, .. }, Happening::SendFailed) => {
                    state.losing(plan[0].client as int).dead
                },
                _ => state.dead,
            };
            survivors_are_items(state.clients, lost);
            let kept = survivors(state.clients, lost);
            assert forall|j: int| 0 <= j < next.clients.len() implies (exists|i: int|
                0 <= i < state.clients.len() && #[trigger] continues(
                    state.clients[i],
                    #[trigger] next.clients[j],
                )) by {
                if next.clients == kept {
                    let i = alive(lost, state.clients.len())[j];
                    assert(continues(state.clients[i], next.clients[j]));
                } else {
                    assert(next.clients.len() == state.clients.len());
                    assert(continues(state.clients[j], next.clients[j]));
                }
            }
        },
    }
}

/// The life of a connection so far: its stream, and the messages that it has
/// sent, in order.
pub struct Life<S> {
    /// The stream that was accepted.
    pub stream: S,
    /// The messages received from it.
    pub sent: Seq<Seq<u8>>,
}

/// The clients that a step removes. What is marked dead by the end of the step is
/// removed where the step leaves no client marked.
pub open spec fn removed<S>(state: State<S>, event: Happening<S>) -> Seq<usize> {
    let marked = match (state.stage, event) {
        (Stage::Receiving(i), Happening::Disconnected) => state.losing(i).dead,
        (Stage::Sending { plan, .. }, Happening::SendFailed) => {
            state.losing(plan[0].client as int).dead
        },
        _ => state.dead,
    };
    if state.step(event).0.dead.len() == 0 {
        marked
    } else {
        seq![]
    }
}

/// The lives of the connected clients after a list of events, in the order of
/// the clients: an accepted stream begins one, a message that is received from
/// client `i` is added to the one at `i`, and those of removed clients end.
pub open spec fn lives<S>(events: Seq<Happening<S>>) -> Seq<Life<S>>
    decreases events.len(),
{
    if events.len() == 0 {
        seq![]
    } else {
        let state = run(events.drop_last()).0;
        let before = lives(events.drop_last());
        let now = match (state.stage, events.last()) {
            (_, Happening::Accepted(stream)) => before.push(Life { stream, sent: seq![] }),
            (Stage::Receiving(i), Happening::Received(bytes)) => {
                before.update(i, Life { sent: before[i].sent.push(bytes), ..before[i] })
            },
            _ => before,
        };
        survivors(now, removed(state, events.last()))
    }
}

/// The clients are what their lives made of them.
spec fn match_lives<S>(clients: Seq<Client<S>>, lives: Seq<Life<S>>) -> bool {
    &&& clients.len() == lives.len()
    &&& forall|i: int|
        0 <= i < clients.len() ==> #[trigger] clients[i] == Client::fresh(
            lives[i].stream,
        ).after_all(lives[i].sent)
}

/// Where none is dead, all survive.
proof fn none_dead_all_survive<T>(items: Seq<T>)
    ensures
        survivors(items, seq![]) == items,
{
    none_dead_all_alive(items.len());
    assert(survivors(items, seq![]) =~= items);
}

/// Where none is dead, every index is listed.
proof fn none_dead_all_alive(n: nat)
    ensures
        alive(seq![], n) == Seq::new(n, |j: int| j),
    decreases n,
{
    if n > 0 {
        none_dead_all_alive((n - 1) as nat);
    }
    assert(alive(seq![], n) =~= Seq::new(n, |j: int| j));
}

/// Removing the same indices keeps clients and lives together.
proof fn survivors_match_lives<S>(clients: Seq<Client<S>>, lives: Seq<Life<S>>, dead: Seq<usize>)
    requires
        match_lives(clients, lives),
        clients.len() <= usize::MAX,
    ensures
        match_lives(survivors(clients, dead), survivors(lives, dead)),
{
    survivors_are_items(clients, dead);
    let kept = alive(dead, clients.len());
    assert forall|j: int| 0 <= j < survivors(clients, dead).len() implies #[trigger] survivors(
        clients,
        dead,
    )[j] == Client::fresh(survivors(lives, dead)[j].stream).after_all(
        survivors(lives, dead)[j].sent,
    ) by {
        assert(clients[kept[j]] == Client::fresh(lives[kept[j]].stream).after_all(
            lives[kept[j]].sent,
        ));
    }
}

/// The clients after a step: as after the event, without the removed ones.
proof fn step_removes<S>(state: State<S>, event: Happening<S>)
    requires
        state.wf(),
        state.expects(event),
        fits(state, event),
    ensures
        ({
            let now = match (state.stage, event) {
                (_, Happening::Accepted(stream)) => state.joined_by(stream).clients,
                (Stage::Receiving(i), Happening::Received(bytes)) => {
                    state.clients.update(i, state.clients[i].after(bytes))
                },
                _ => state.clients,
            };
            &&& now.len() <= usize::MAX
            &&& state.step(event).0.clients == survivors(now, removed(state, event))
        }),
{
    let now = match (state.stage, event) {
        (_, Happening::Accepted(stream)) => state.joined_by(stream).clients,
        (Stage::Receiving(i), Happening::Received(bytes)) => {
            state.clients.update(i, state.clients[i].after(bytes))
        },
        _ => state.clients,
    };
    none_dead_all_survive(now);
    assert(removed(state, event).len() == 0 ==> removed(state, event) =~= seq![]);
    assert(state.dead.len() == 0 ==> state.dead =~= seq![]);
}

/// Clients and lives stay together.
proof fn lives_match<S>(events: Seq<Happening<S>>)
    requires
        answered(events),
    ensures
        match_lives(run(events).0.clients, lives(events)),
    decreases events.len(),
{
    if events.len() > 0 {
        let before = events.drop_last();
        let event = events.last();
        let state = run(before).0;
        let past = lives(before);
        lives_match(before);
        always_in_order(before);
        step_removes(state, event);
        let (clients, now) = match (state.stage, event) {
            (_, Happening::Accepted(stream)) => (
                state.joined_by(stream).clients,
                past.push(Life { stream, sent: seq![] }),
            ),
            (Stage::Receiving(i), Happening::Received(bytes)) => (
                state.clients.update(i, state.clients[i].after(bytes)),
                past.update(i, Life { sent: past[i].sent.push(bytes), ..past[i] }),
            ),
            _ => (state.clients, past),
        };
        assert forall|i: int| 0 <= i < clients.len() implies #[trigger] clients[i]
            == Client::fresh(now[i].stream).after_all(now[i].sent) by {
            if i < state.clients.len() {
                assert(state.clients[i] == Client::fresh(past[i].stream).after_all(past[i].sent));
                if now[i].sent.len() > past[i].sent.len() {
                    assert(now[i].sent.drop_last() =~= past[i].sent);
                }
            }
        }
        survivors_match_lives(clients, now, removed(state, event));
    }
}

/// In every run, what a connected client is follows from what it has sent since
/// it connected: it is what its messages, in order, make of a fresh client. So it
/// is bound for life to the principal of its first usable message, and it is on
/// the session of its latest forwarded prompt.
pub proof fn clients_are_what_they_sent<S>(events: Seq<Happening<S>>)
    requires
        answered(events),
    ensures
        run(events).0.clients.len() == lives(events).len(),
        forall|i: int|
            0 <= i < lives(events).len() ==> {
                let life = lives(events)[i];
                &&& #[trigger] run(events).0.clients[i] == Client::fresh(life.stream).after_all(
                    life.sent,
                )
                &&& run(events).0.clients[i] == (Client {
                    stream: life.stream,
                    principal: first_principal(life.sent),
                    session_id: latest_session(life.sent),
                })
            },
{
    lives_match(events);
    assert forall|i: int| 0 <= i < lives(events).len() implies {
        let life = lives(events)[i];
        &&& #[trigger] run(events).0.clients[i] == Client::fresh(life.stream).after_all(life.sent)
        &&& run(events).0.clients[i] == (Client {
            stream: life.stream,
            principal: first_principal(life.sent),
            session_id: latest_session(life.sent),
        })
    } by {
        known_by_what_it_sent(lives(events)[i].stream, lives(events)[i].sent);
    }
}

/// Removal takes out exactly the dead: the survivors are the items at the
/// indices that are not dead, in their order.
pub proof fn removal_is_exact<T>(items: Seq<T>, dead: Seq<usize>)
    requires
        items.len() <= usize::MAX,
    ensures
        survivors(items, dead).len() == alive(dead, items.len()).len(),
        forall|j: int|
            0 <= j < survivors(items, dead).len() ==> #[trigger] survivors(items, dead)[j]
                == items[alive(dead, items.len())[j]],
        forall|i: int|
            #[trigger] alive(dead, items.len()).contains(i) <==> 0 <= i < items.len()
                && !dead.contains(i as usize),
        forall|j: int, k: int|
            0 <= j < k < alive(dead, items.len()).len() ==> #[trigger] alive(dead, items.len())[j]
                < #[trigger] alive(dead, items.len())[k],
{
    alive_lists(dead, items.len());
}

/// A failed send marks its client dead and skips what else was due to it; the
/// sends to others stay.
pub proof fn failed_send_skips_the_client<S>(state: State<S>)
    requires
        state.wf(),
        state.stage is Sending,
    ensures
        state.stage matches Stage::Sending { subscription, messages, plan } ==> {
            let client = plan[0].client;
            let left = past_client(plan.skip(1), client);
            &&& state.step(Happening::SendFailed) == state.losing(client as int).send_from(
                subscription,
                messages,
                left,
            )
            &&& state.losing(client as int).dead.contains(client)
            &&& forall|d: Delivery|
                #[trigger] left.contains(d) <==> plan.contains(d) && d.client != client
        },
{
    if let Stage::Sending { subscription, messages, plan } = state.stage {
        let client = plan[0].client;
        let rest = plan.skip(1);
        rest_is_planned(state.clients, state.dead, messages, plan);
        past_client_is_planned(state.clients, state.dead, messages, rest, client);
        let dead = state.losing(client as int).dead;
        assert(dead[dead.len() - 1] == client);
        let left = past_client(rest, client);
        assert forall|d: Delivery|
            #[trigger] left.contains(d) <==> plan.contains(d) && d.client != client by {
            if rest.contains(d) {
                let k = choose|k: int| 0 <= k < rest.len() && rest[k] == d;
                assert(plan[k + 1] == d);
            }
            if plan.contains(d) && d.client != client {
                let k = choose|k: int| 0 <= k < plan.len() && plan[k] == d;
                assert(rest[k - 1] == d);
            }
        }
    }
}

/// The loop after `k` sends that succeed.
pub open spec fn after_sends<S>(state: State<S>, k: nat) -> (State<S>, Act)
    decreases k,
{
    if k == 0 {
        match state.stage {
            Stage::Sending { subscription, messages, plan } => {
                state.send_from(subscription, messages, plan)
            },
            _ => (state, Act::Accept),
        }
    } else {
        after_sends(state, (k - 1) as nat).0.step(Happening::Sent)
    }
}

/// Where every send succeeds, all sends of the plan are made, each once and in
/// order, and then the next subscription is polled or the next round begins.
pub proof fn all_sent_in_order<S>(state: State<S>, k: nat)
    requires
        state.stage is Sending,
    ensures
        state.stage matches Stage::Sending { subscription, messages, plan } ==> {
            &&& k < plan.len() ==> after_sends(state, k) == (
                state.at(Stage::Sending { subscription, messages, plan: plan.skip(k as int) }),
                Act::Send(plan[k as int].client as int, messages[plan[k as int].message as int].bytes),
            )
            &&& k == plan.len() && k > 0 ==> after_sends(state, k) == state.poll_from(
                subscription + 1,
            )
        },
    decreases k,
{
    if let Stage::Sending { subscription, messages, plan } = state.stage {
        if k == 0 {
            assert(plan.skip(0) =~= plan);
        } else if k <= plan.len() {
            all_sent_in_order(state, (k - 1) as nat);
            assert(plan.skip(k - 1).skip(1) =~= plan.skip(k as int));
            assert(plan.skip(k - 1)[0] == plan[k - 1]);
        }
    }
}

/// The loop ends exactly when the pause after a failed accept fails or a
/// subscription fails.
pub proof fn stops_only_on_failure<S>(state: State<S>, event: Happening<S>)
    requires
        state.wf(),
        state.expects(event),
        fits(state, event),
    ensures
        state.step(event).1 == Act::Stop(StopReason::SleepFailed) <==> event is SleepFailed,
        state.step(event).1 == Act::Stop(StopReason::SubscriptionFailed) <==> event is PollFailed,
        state.step(event).1 is Stop <==> state.step(event).0.stage is Stopped,
{
}

/// Events are known by their kind and what they bring.
pub proof fn events_keep_their_values<S>(
    event: Event<S>,
    stream: S,
    bytes: Vec<u8>,
    polled: PollResult,
)
    ensures
        event == Event::Accepted(stream) ==> event@ == Happening::Accepted(stream),
        event == Event::<S>::AcceptFailed ==> event@ == Happening::<S>::AcceptFailed,
        event == Event::<S>::Slept ==> event@ == Happening::<S>::Slept,
        event == Event::<S>::SleepFailed ==> event@ == Happening::<S>::SleepFailed,
        event == Event::<S>::NoConnection ==> event@ == Happening::<S>::NoConnection,
        event == Event::<S>::Received(bytes) ==> event@ == Happening::<S>::Received(bytes@),
        event == Event::<S>::NothingReceived ==> event@ == Happening::<S>::NothingReceived,
        event == Event::<S>::Disconnected ==> event@ == Happening::<S>::Disconnected,
        event == Event::<S>::CarriedOut ==> event@ == Happening::<S>::CarriedOut,
        event == Event::<S>::Polled(polled) ==> event@ == Happening::<S>::Polled(
            polled_views(polled.messages@),
        ),
        event == Event::<S>::PollFailed ==> event@ == Happening::<S>::PollFailed,
        event == Event::<S>::Sent ==> event@ == Happening::<S>::Sent,
        event == Event::<S>::SendFailed ==> event@ == Happening::<S>::SendFailed,
{
}

/// Actions are known by their kind, the client or subscription that they are for,
/// and what is to be done or sent; a proxy's clients are known one by one.
pub proof fn actions_keep_their_values<S>(
    action: Action,
    i: usize,
    outcome: IngressOutcome,
    bytes: Vec<u8>,
    reason: StopReason,
    proxy: Proxy<S>,
)
    ensures
        action == Action::Accept ==> action@ == Act::Accept,
        action == Action::BackOff ==> action@ == Act::BackOff,
        action == Action::TryAccept ==> action@ == Act::TryAccept,
        action == (Action::Receive { client: i }) ==> action@ == Act::Receive(i as int),
        action == (Action::CarryOut { client: i, outcome }) ==> action@ == Act::CarryOut(
            i as int,
            outcome@,
        ),
        action == (Action::Poll { subscription: i }) ==> action@ == Act::Poll(i as int),
        action == (Action::Send { client: i, bytes }) ==> action@ == Act::Send(i as int, bytes@),
        action == (Action::Stop { reason }) ==> action@ == Act::Stop(reason),
        proxy@.clients.len() == proxy.clients@.len(),
        i < proxy.clients@.len() ==> proxy@.clients[i as int] == proxy.clients@[i as int]@,
{
}

} // verus!
