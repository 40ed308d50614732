//! Laws of the sends of one round: to each client its own.
//!
//! From the first poll to the end of a round, the loop polls and sends. What the
//! host answers is given by [`Answers`], which holds for every poll what it brings
//! and for every send whether it fails.

use crate::client::Client;
use crate::outbound::{due, due_to, is_due, outbound_of, Delivery, Outbound, Polled};
use crate::proxy::{past_client, survivors, Happening, Stage, State};
use crate::proxy_laws::step_keeps_wf;
use crate::topics::SUBSCRIPTIONS;
use vstd::prelude::*;

verus! {

/// What the host answers in the polls and sends of a round.
pub struct Answers {
    /// The messages that a subscription brings.
    pub polls: spec_fn(int) -> Seq<Polled>,
    /// Whether a send of what a subscription brought fails.
    pub fails: spec_fn(int, Delivery) -> bool,
}

impl Answers {
    /// Every poll fits in memory.
    pub open spec fn fit(self) -> bool {
        forall|j: int| (#[trigger] (self.polls)(j)).len() <= usize::MAX
    }
}

/// What comes of the polls and sends of a round.
pub struct Round<S> {
    /// The sends that were made, in order, each with its subscription.
    pub made: Seq<(int, Delivery)>,
    /// The clients that were lost by a failed send, in order.
    pub lost: Seq<usize>,
    /// The loop when the round is over.
    pub end: State<S>,
}

impl<S> Round<S> {
    /// The sends that were made to client `c`.
    pub open spec fn made_to(self, c: usize) -> Seq<(int, Delivery)> {
        self.made.filter(|send: (int, Delivery)| send.1.client == c)
    }
}

/// How many polls and broadcasts are left of a round.
pub open spec fn stages_left(stage: Stage) -> int {
    match stage {
        Stage::Polling(j) => 2 * (SUBSCRIPTIONS - j),
        Stage::Sending { subscription, .. } => 2 * (SUBSCRIPTIONS - subscription) - 1,
        _ => 0,
    }
}

/// How many sends are left of a broadcast.
pub open spec fn sends_left(stage: Stage) -> nat {
    match stage {
        Stage::Sending { plan, .. } => plan.len(),
        _ => 0,
    }
}

/// The loop run from `state` to the end of its round.
pub open spec fn rest_of_round<S>(state: State<S>, answers: Answers) -> Round<S>
    decreases stages_left(state.stage), sends_left(state.stage),
    via rest_of_round_ends::<S>
{
    match state.stage {
        Stage::Polling(j) if j < SUBSCRIPTIONS => {
            rest_of_round(state.step(Happening::Polled((answers.polls)(j))).0, answers)
        },
        Stage::Sending { subscription, plan, .. } if subscription < SUBSCRIPTIONS && plan.len()
            > 0 => {
            if (answers.fails)(subscription, plan[0]) {
                let rest = rest_of_round(state.step(Happening::SendFailed).0, answers);
                Round {
                    made: seq![(subscription, plan[0])] + rest.made,
                    lost: seq![plan[0].client] + rest.lost,
                    end: rest.end,
                }
            } else {
                let rest = rest_of_round(state.step(Happening::Sent).0, answers);
                Round { made: seq![(subscription, plan[0])] + rest.made, ..rest }
            }
        },
        _ => Round { made: seq![], lost: seq![], end: state },
    }
}

#[via_fn]
proof fn rest_of_round_ends<S>(state: State<S>, answers: Answers) {
    if let Stage::Sending { plan, .. } = state.stage {
        if plan.len() > 0 {
            past_client_is_short(plan.skip(1), plan[0].client);
        }
    }
}

/// Skipping sends makes a plan no longer.
proof fn past_client_is_short(plan: Seq<Delivery>, client: usize)
    ensures
        past_client(plan, client).len() <= plan.len(),
    decreases plan.len(),
{
    if plan.len() > 0 && plan[0].client == client {
        past_client_is_short(plan.skip(1), client);
    }
}

/// The sends of a plan that go to client `c`.
pub open spec fn plan_to(plan: Seq<Delivery>, c: usize) -> Seq<Delivery> {
    plan.filter(|d: Delivery| d.client == c)
}

/// The sends of a list up to the first that fails, that one included.
pub open spec fn up_to_failure(
    list: Seq<Delivery>,
    subscription: int,
    answers: Answers,
) -> Seq<(int, Delivery)>
    decreases list.len(),
{
    if list.len() == 0 {
        seq![]
    } else if (answers.fails)(subscription, list[0]) {
        seq![(subscription, list[0])]
    } else {
        seq![(subscription, list[0])] + up_to_failure(list.skip(1), subscription, answers)
    }
}

/// One of the sends of a list fails.
pub open spec fn one_fails(list: Seq<Delivery>, subscription: int, answers: Answers) -> bool
    decreases list.len(),
{
    list.len() > 0 && ((answers.fails)(subscription, list[0]) || one_fails(
        list.skip(1),
        subscription,
        answers,
    ))
}

/// What client number `c` gets where `list` is due to it from `subscription` and
/// the later subscriptions are still to be polled, and whether it is lost: all
/// that is due to it, up to the first send to it that fails.
pub open spec fn own_sends<S>(
    client: Client<S>,
    c: usize,
    list: Seq<Delivery>,
    subscription: int,
    answers: Answers,
) -> (Seq<(int, Delivery)>, bool)
    decreases SUBSCRIPTIONS - subscription,
{
    let now = up_to_failure(list, subscription, answers);
    if one_fails(list, subscription, answers) {
        (now, true)
    } else if subscription + 1 >= SUBSCRIPTIONS {
        (now, false)
    } else {
        let messages = outbound_of((answers.polls)(subscription + 1));
        let (later, lost) = own_sends(
            client,
            c,
            due_to(client, c, messages, messages.len()),
            subscription + 1,
            answers,
        );
        (now + later, lost)
    }
}

/// What client number `c` gets from `state` to the end of the round, and whether
/// it is lost. A client that is marked dead gets nothing.
pub open spec fn own_rest<S>(state: State<S>, c: usize, answers: Answers) -> (
    Seq<(int, Delivery)>,
    bool,
) {
    if state.dead.contains(c) {
        (seq![], false)
    } else {
        let client = state.clients[c as int];
        match state.stage {
            Stage::Polling(j) => own_sends(client, c, seq![], j - 1, answers),
            Stage::Sending { subscription, plan, .. } => own_sends(
                client,
                c,
                plan_to(plan, c),
                subscription,
                answers,
            ),
            _ => (seq![], false),
        }
    }
}

/// Filtering a sequence from the front.
proof fn filter_from_front<A>(first: A, rest: Seq<A>, pred: spec_fn(A) -> bool)
    ensures
        (seq![first] + rest).filter(pred) == (if pred(first) {
            seq![first] + rest.filter(pred)
        } else {
            rest.filter(pred)
        }),
{
    Seq::filter_distributes_over_add(seq![first], rest, pred);
    reveal_with_fuel(Seq::filter, 2);
    assert(seq![first].drop_last() =~= seq![]);
    assert(Seq::<A>::empty() + rest.filter(pred) =~= rest.filter(pred));
    assert(Seq::<A>::empty().push(first) =~= seq![first]);
}

/// Filtering by what holds of every item changes nothing.
proof fn filter_keeps_all<A>(items: Seq<A>, pred: spec_fn(A) -> bool)
    requires
        forall|k: int| 0 <= k < items.len() ==> pred(#[trigger] items[k]),
    ensures
        items.filter(pred) == items,
    decreases items.len(),
{
    reveal(Seq::filter);
    if items.len() > 0 {
        filter_keeps_all(items.drop_last(), pred);
        assert(items.drop_last().push(items.last()) =~= items);
    }
}

/// The sends of a plan to client `c`, from the front.
pub(crate) proof fn plan_to_from_front(plan: Seq<Delivery>, c: usize)
    requires
        plan.len() > 0,
    ensures
        plan_to(plan, c) == (if plan[0].client == c {
            seq![plan[0]] + plan_to(plan.skip(1), c)
        } else {
            plan_to(plan.skip(1), c)
        }),
{
    assert(plan =~= seq![plan[0]] + plan.skip(1));
    filter_from_front(plan[0], plan.skip(1), |d: Delivery| d.client == c);
}

/// Skipping the sends to one client leaves those to another.
pub(crate) proof fn past_client_keeps_others(plan: Seq<Delivery>, client: usize, c: usize)
    requires
        client != c,
    ensures
        plan_to(past_client(plan, client), c) == plan_to(plan, c),
    decreases plan.len(),
{
    if plan.len() > 0 && plan[0].client == client {
        plan_to_from_front(plan, c);
        past_client_keeps_others(plan.skip(1), client, c);
    }
}

/// Every send of [`due_to`] is to that client.
proof fn due_to_is_to<S>(client: Client<S>, i: usize, messages: Seq<Outbound>, n: nat)
    ensures
        forall|k: int|
            0 <= k < due_to(client, i, messages, n).len() ==> (#[trigger] due_to(
                client,
                i,
                messages,
                n,
            )[k]).client == i,
    decreases n,
{
    if n > 0 {
        let list = due_to(client, i, messages, n);
        let head = due_to(client, i, messages, (n - 1) as nat);
        due_to_is_to(client, i, messages, (n - 1) as nat);
        assert forall|k: int| 0 <= k < list.len() implies (#[trigger] list[k]).client == i by {
            if k < head.len() {
                assert(list[k] == head[k]);
            }
        }
    }
}

/// What a broadcast plans for client `c`.
pub(crate) proof fn due_is_own<S>(
    clients: Seq<Client<S>>,
    dead: Seq<usize>,
    messages: Seq<Outbound>,
    n: nat,
    c: usize,
)
    requires
        n <= clients.len() <= usize::MAX,
    ensures
        plan_to(due(clients, dead, messages, n), c) == (if c < n && !dead.contains(c) {
            due_to(clients[c as int], c, messages, messages.len())
        } else {
            seq![]
        }),
    decreases n,
{
    let pred = |d: Delivery| d.client == c;
    reveal(Seq::filter);
    if n > 0 {
        due_is_own(clients, dead, messages, (n - 1) as nat, c);
        let i = (n - 1) as usize;
        if !dead.contains(i) {
            let head = due(clients, dead, messages, (n - 1) as nat);
            let tail = due_to(clients[n - 1], i, messages, messages.len());
            due_to_is_to(clients[n - 1], i, messages, messages.len());
            Seq::filter_distributes_over_add(head, tail, pred);
            if i == c {
                filter_keeps_all(tail, pred);
                assert(Seq::<Delivery>::empty() + tail =~= tail);
            } else {
                tail.lemma_all_neg_filter_empty(pred);
                assert(head.filter(pred) + tail.filter(pred) =~= head.filter(pred));
            }
        }
    }
}

/// The first send of a list that does not fail comes before the others.
proof fn own_sends_from_front<S>(
    client: Client<S>,
    c: usize,
    list: Seq<Delivery>,
    subscription: int,
    answers: Answers,
)
    requires
        list.len() > 0,
        !(answers.fails)(subscription, list[0]),
    ensures
        own_sends(client, c, list, subscription, answers).0 == seq![(subscription, list[0])]
            + own_sends(client, c, list.skip(1), subscription, answers).0,
        own_sends(client, c, list, subscription, answers).1 == own_sends(
            client,
            c,
            list.skip(1),
            subscription,
            answers,
        ).1,
{
    assert(own_sends(client, c, list, subscription, answers).0 =~= seq![(subscription, list[0])]
        + own_sends(client, c, list.skip(1), subscription, answers).0);
}

/// What a list holds with one more item in front.
proof fn lost_from_front(first: usize, rest: Seq<usize>, c: usize)
    ensures
        (seq![first] + rest).contains(c) <==> first == c || rest.contains(c),
{
    let all = seq![first] + rest;
    if rest.contains(c) {
        let k = choose|k: int| 0 <= k < rest.len() && rest[k] == c;
        assert(all[k + 1] == c);
    }
    if all.contains(c) {
        let k = choose|k: int| 0 <= k < all.len() && all[k] == c;
        if k > 0 {
            assert(rest[k - 1] == c);
        }
    }
    assert(all[0] == first);
}

/// What a list holds with one more item at the end.
proof fn marked_from_back(dead: Seq<usize>, last: usize, c: usize)
    ensures
        dead.push(last).contains(c) <==> dead.contains(c) || last == c,
{
    let all = dead.push(last);
    if dead.contains(c) {
        let k = choose|k: int| 0 <= k < dead.len() && dead[k] == c;
        assert(all[k] == c);
    }
    assert(all[dead.len() as int] == last);
    if all.contains(c) && last != c {
        let k = choose|k: int| 0 <= k < all.len() && all[k] == c;
        assert(dead[k] == c);
    }
}

/// What each client gets is its own: from any poll or send to the end of the
/// round, the sends made to a client are those due to it, up to the first send to
/// it that fails, and it is lost exactly when there is such a send.
pub proof fn each_client_gets_its_own<S>(state: State<S>, answers: Answers, c: usize)
    requires
        state.wf(),
        state.stage is Polling || state.stage is Sending,
        c < state.clients.len(),
        answers.fit(),
    ensures
        rest_of_round(state, answers).made_to(c) == own_rest(state, c, answers).0,
        rest_of_round(state, answers).lost.contains(c) == own_rest(state, c, answers).1,
    decreases stages_left(state.stage), sends_left(state.stage), 0int,
{
    let pred = |send: (int, Delivery)| send.1.client == c;
    match state.stage {
        Stage::Polling(j) => {
            let event = Happening::Polled((answers.polls)(j));
            let next = state.step(event).0;
            step_keeps_wf(state, event);
            let messages = outbound_of((answers.polls)(j));
            let plan = due(state.clients, state.dead, messages, state.clients.len());
            due_is_own(state.clients, state.dead, messages, state.clients.len(), c);
            rest_of_sends(state, next, j, messages, plan, answers, c);
            assert(up_to_failure(seq![], j - 1, answers) =~= seq![]);
            if !state.dead.contains(c) {
                let own = own_sends(state.clients[c as int], c, plan_to(plan, c), j, answers);
                assert(seq![] + own.0 =~= own.0);
            }
        },
        Stage::Sending { subscription, messages, plan } => {
            let d = plan[0];
            let rest = plan.skip(1);
            let failed = (answers.fails)(subscription, d);
            let event: Happening<S> = if failed {
                Happening::SendFailed
            } else {
                Happening::Sent
            };
            let next = state.step(event).0;
            step_keeps_wf(state, event);
            assert(is_due(state.clients, state.dead, messages, d));
            past_client_is_short(rest, d.client);
            plan_to_from_front(plan, c);
            let after = rest_of_round(next, answers);
            filter_from_front((subscription, d), after.made, pred);
            let base = if failed {
                state.losing(d.client as int)
            } else {
                state
            };
            let left = if failed {
                past_client(rest, d.client)
            } else {
                rest
            };
            rest_of_sends(base, next, subscription, messages, left, answers, c);
            if failed {
                lost_from_front(d.client, after.lost, c);
                marked_from_back(state.dead, d.client, c);
                if d.client != c {
                    past_client_keeps_others(rest, d.client, c);
                } else {
                    assert(seq![(subscription, d)] + Seq::empty() =~= seq![(subscription, d)]);
                }
            }
            if d.client == c {
                let list = plan_to(plan, c);
                assert(list.skip(1) =~= plan_to(rest, c));
                if !failed {
                    own_sends_from_front(
                        state.clients[c as int],
                        c,
                        list,
                        subscription,
                        answers,
                    );
                }
            }
        },
        _ => {},
    }
}

/// What client `c` gets from the sends that are left of a broadcast on.
proof fn rest_of_sends<S>(
    base: State<S>,
    next: State<S>,
    subscription: int,
    messages: Seq<Outbound>,
    plan: Seq<Delivery>,
    answers: Answers,
    c: usize,
)
    requires
        next == base.send_from(subscription, messages, plan).0,
        next.wf(),
        0 <= subscription < SUBSCRIPTIONS,
        c < base.clients.len(),
        answers.fit(),
    ensures
        rest_of_round(next, answers).made_to(c) == (if base.dead.contains(c) {
            seq![]
        } else {
            own_sends(base.clients[c as int], c, plan_to(plan, c), subscription, answers).0
        }),
        rest_of_round(next, answers).lost.contains(c) == (!base.dead.contains(c) && own_sends(
            base.clients[c as int],
            c,
            plan_to(plan, c),
            subscription,
            answers,
        ).1),
    decreases 2 * (SUBSCRIPTIONS - subscription) - 1, plan.len(), 1int,
{
    reveal(Seq::filter);
    if plan.len() > 0 || subscription + 1 < SUBSCRIPTIONS {
        each_client_gets_its_own(next, answers, c);
    }
}

/// Two hosts treat client `c` alike: every poll brings the same, and the same
/// sends to `c` fail. The sends to other clients may fare differently.
pub open spec fn alike_for(a: Answers, b: Answers, c: usize) -> bool {
    &&& a.polls == b.polls
    &&& forall|j: int, d: Delivery|
        d.client == c ==> #[trigger] (a.fails)(j, d) == (b.fails)(j, d)
}

/// A list of sends to client `c` fares alike with hosts that treat `c` alike.
proof fn list_fares_alike(
    list: Seq<Delivery>,
    subscription: int,
    a: Answers,
    b: Answers,
    c: usize,
)
    requires
        alike_for(a, b, c),
        forall|k: int| 0 <= k < list.len() ==> (#[trigger] list[k]).client == c,
    ensures
        up_to_failure(list, subscription, a) == up_to_failure(list, subscription, b),
        one_fails(list, subscription, a) == one_fails(list, subscription, b),
    decreases list.len(),
{
    if list.len() > 0 {
        assert(list[0].client == c);
        assert((a.fails)(subscription, list[0]) == (b.fails)(subscription, list[0]));
        list_fares_alike(list.skip(1), subscription, a, b, c);
    }
}

/// What a client gets is alike with hosts that treat it alike.
proof fn own_sends_alike<S>(
    client: Client<S>,
    c: usize,
    list: Seq<Delivery>,
    subscription: int,
    a: Answers,
    b: Answers,
)
    requires
        alike_for(a, b, c),
        forall|k: int| 0 <= k < list.len() ==> (#[trigger] list[k]).client == c,
    ensures
        own_sends(client, c, list, subscription, a) == own_sends(client, c, list, subscription, b),
    decreases SUBSCRIPTIONS - subscription,
{
    list_fares_alike(list, subscription, a, b, c);
    if subscription + 1 < SUBSCRIPTIONS {
        let messages = outbound_of((a.polls)(subscription + 1));
        due_to_is_to(client, c, messages, messages.len());
        own_sends_alike(
            client,
            c,
            due_to(client, c, messages, messages.len()),
            subscription + 1,
            a,
            b,
        );
    }
}

/// No client disturbs another: from any poll or send to the end of the round,
/// which sends are made to a client, and whether it is lost, does not depend on
/// which sends to other clients fail.
pub proof fn no_client_disturbs_another<S>(state: State<S>, a: Answers, b: Answers, c: usize)
    requires
        state.wf(),
        state.stage is Polling || state.stage is Sending,
        c < state.clients.len(),
        a.fit(),
        alike_for(a, b, c),
    ensures
        rest_of_round(state, a).made_to(c) == rest_of_round(state, b).made_to(c),
        rest_of_round(state, a).lost.contains(c) == rest_of_round(state, b).lost.contains(c),
{
    each_client_gets_its_own(state, a, c);
    each_client_gets_its_own(state, b, c);
    let client = state.clients[c as int];
    match state.stage {
        Stage::Polling(j) => own_sends_alike(client, c, seq![], j - 1, a, b),
        Stage::Sending { subscription, plan, .. } => {
            let list = plan_to(plan, c);
            assert forall|k: int| 0 <= k < list.len() implies (#[trigger] list[k]).client
                == c by {
                plan.lemma_filter_pred(|d: Delivery| d.client == c, k);
            }
            own_sends_alike(client, c, list, subscription, a, b);
        },
        _ => {},
    }
}

/// A round ends with the next one about to begin, and with exactly those clients
/// gone that were marked before or were lost by a failed send; the others stay as
/// they are, in their order.
pub proof fn lost_clients_are_removed<S>(state: State<S>, answers: Answers)
    requires
        state.wf(),
        state.stage is Polling || state.stage is Sending,
        answers.fit(),
    ensures
        ({
            let round = rest_of_round(state, answers);
            &&& round.end.stage is Accepting || round.end.stage is Probing
            &&& round.end.clients == survivors(state.clients, state.dead + round.lost)
            &&& round.end.dead.len() == 0
        }),
    decreases stages_left(state.stage), sends_left(state.stage),
{
    let none = Seq::<usize>::empty();
    assert(state.dead + none =~= state.dead);
    match state.stage {
        Stage::Polling(j) => {
            let event = Happening::Polled((answers.polls)(j));
            step_keeps_wf(state, event);
            let next = state.step(event).0;
            if next.stage is Polling || next.stage is Sending {
                lost_clients_are_removed(next, answers);
            }
        },
        Stage::Sending { subscription, messages, plan } => {
            let d = plan[0];
            past_client_is_short(plan.skip(1), d.client);
            let failed = (answers.fails)(subscription, d);
            let event: Happening<S> = if failed {
                Happening::SendFailed
            } else {
                Happening::Sent
            };
            step_keeps_wf(state, event);
            let next = state.step(event).0;
            let later = rest_of_round(next, answers).lost;
            if failed {
                assert(state.dead.push(d.client) + later =~= state.dead + (seq![d.client]
                    + later));
                assert(state.dead.push(d.client) + none =~= state.dead.push(d.client));
            }
            if next.stage is Polling || next.stage is Sending {
                lost_clients_are_removed(next, answers);
            }
        },
        _ => {},
    }
}

} // verus!
