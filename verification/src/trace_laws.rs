//! Laws of what the loop asks for, action by action.
//!
//! A run is told by the events that answered its actions: [`asked`] is the action
//! that the loop asked for after some of them, and [`connected`] are its clients
//! then. The laws speak of these alone.

use crate::client::Client;
use crate::ingress::outcome_of;
use crate::json::json_of_bytes;
use crate::outbound::{due, due_to, is_due, outbound_of, precedes, Delivery, Outbound, Polled};
use crate::proxy::{
    alive, past_client, survivors, Act, Happening, Stage, State, StopReason, BACK_OFF_MS,
};
use crate::proxy_laws::{always_in_order, answered, fits, run};
use crate::round_laws::{due_is_own, past_client_keeps_others, plan_to, plan_to_from_front};
use crate::topics::SUBSCRIPTIONS;
use vstd::prelude::*;

verus! {

/// The action that the loop asks for after the first `k` events.
pub open spec fn asked<S>(events: Seq<Happening<S>>, k: int) -> Act {
    run(events.take(k)).1
}

/// The clients that are connected after the first `k` events.
pub open spec fn connected<S>(events: Seq<Happening<S>>, k: int) -> Seq<Client<S>> {
    run(events.take(k)).0.clients
}

/// The loop after the first `k` events.
spec fn loop_at<S>(events: Seq<Happening<S>>, k: int) -> State<S> {
    run(events.take(k)).0
}

/// The beginning of a run is a run.
proof fn beginning_is_answered<S>(events: Seq<Happening<S>>, k: int)
    requires
        answered(events),
        0 <= k <= events.len(),
    ensures
        answered(events.take(k)),
    decreases events.len(),
{
    if k == events.len() {
        assert(events.take(k) =~= events);
    } else {
        beginning_is_answered(events.drop_last(), k);
        assert(events.drop_last().take(k) =~= events.take(k));
    }
}

/// One event further.
proof fn one_further<S>(events: Seq<Happening<S>>, k: int)
    requires
        answered(events),
        0 <= k < events.len(),
    ensures
        run(events.take(k + 1)) == loop_at(events, k).step(events[k]),
        loop_at(events, k).wf(),
        loop_at(events, k + 1).wf(),
        loop_at(events, k).expects(events[k]),
        fits(loop_at(events, k), events[k]),
        crate::proxy_laws::asks_for(loop_at(events, k), asked(events, k)),
        crate::proxy_laws::asks_for(loop_at(events, k + 1), asked(events, k + 1)),
{
    beginning_is_answered(events, k);
    beginning_is_answered(events, k + 1);
    always_in_order(events.take(k));
    always_in_order(events.take(k + 1));
    assert(events.take(k + 1).drop_last() =~= events.take(k));
    assert(events.take(k + 1).last() == events[k]);
}

/// How a run begins: no client is connected, and the loop waits for one.
pub proof fn how_a_run_begins<S>(events: Seq<Happening<S>>)
    ensures
        asked(events, 0) == Act::Accept,
        connected(events, 0).len() == 0,
        BACK_OFF_MS == 100,
{
    assert(events.take(0) =~= seq![]);
}

/// How clients are waited for. Without a client the loop waits for one, pauses
/// where that failed and then waits again; with one it looks for one more, and
/// then reads from the first whether one came or not. Who connected is the last
/// client, unbound and on no session.
pub proof fn how_clients_connect<S>(events: Seq<Happening<S>>, k: int)
    requires
        answered(events),
        0 <= k < events.len(),
    ensures
        asked(events, k) == Act::Accept ==> {
            &&& connected(events, k).len() == 0
            &&& events[k] is Accepted || events[k] is AcceptFailed
            &&& events[k] is Accepted ==> asked(events, k + 1) == Act::TryAccept
            &&& events[k] is AcceptFailed ==> asked(events, k + 1) == Act::BackOff
        },
        asked(events, k) == Act::BackOff ==> {
            &&& connected(events, k).len() == 0
            &&& events[k] is Slept || events[k] is SleepFailed
            &&& events[k] is Slept ==> asked(events, k + 1) == Act::Accept
            &&& events[k] is SleepFailed ==> asked(events, k + 1) == Act::Stop(
                StopReason::SleepFailed,
            )
        },
        asked(events, k) == Act::TryAccept ==> {
            &&& connected(events, k).len() > 0
            &&& events[k] is Accepted || events[k] is NoConnection
            &&& asked(events, k + 1) == Act::Receive(0)
        },
        asked(events, k) is Accept || asked(events, k) is BackOff || asked(events, k) is TryAccept
            ==> connected(events, k + 1) == (match events[k] {
            Happening::Accepted(stream) => connected(events, k).push(
                Client { stream, principal: None, session_id: None },
            ),
            _ => connected(events, k),
        }),
        events[k] is Accepted ==> asked(events, k) is Accept || asked(events, k) is TryAccept,
{
    one_further(events, k);
}

/// How clients are read from. A message of client `i` is handed on at once with
/// what becomes of it, and changes that client alone. After client `i` comes the
/// next one, and after the last the first subscription.
pub proof fn how_clients_are_read<S>(events: Seq<Happening<S>>, k: int)
    requires
        answered(events),
        0 <= k < events.len(),
    ensures
        asked(events, k) matches Act::Receive(i) ==> {
            let client = connected(events, k)[i];
            &&& 0 <= i < connected(events, k).len()
            &&& events[k] is Received || events[k] is NothingReceived || events[k] is Disconnected
            &&& events[k] matches Happening::Received(bytes) ==> {
                &&& asked(events, k + 1) == Act::CarryOut(
                    i,
                    outcome_of(json_of_bytes(bytes), client.principal),
                )
                &&& connected(events, k + 1) == connected(events, k).update(
                    i,
                    client.after(bytes),
                )
            }
            &&& !(events[k] is Received) && i + 1 < connected(events, k).len() ==> {
                &&& asked(events, k + 1) == Act::Receive(i + 1)
                &&& connected(events, k + 1) == connected(events, k)
            }
            &&& !(events[k] is Received) && i + 1 == connected(events, k).len() ==> asked(
                events,
                k + 1,
            ) == Act::Poll(0)
        },
        asked(events, k) matches Act::CarryOut(i, _) ==> {
            &&& 0 <= i < connected(events, k).len()
            &&& events[k] is CarriedOut
            &&& i + 1 < connected(events, k).len() ==> {
                &&& asked(events, k + 1) == Act::Receive(i + 1)
                &&& connected(events, k + 1) == connected(events, k)
            }
            &&& i + 1 == connected(events, k).len() ==> asked(events, k + 1) == Act::Poll(0)
        },
        events[k] is Received ==> asked(events, k) is Receive,
{
    one_further(events, k);
}

/// How subscriptions are polled and what they bring is sent: between polls and
/// sends the clients stay, and a failed subscription ends the loop. After the last
/// send of the last subscription the next round begins, by waiting for a client
/// where none is left.
pub proof fn how_polls_go_on<S>(events: Seq<Happening<S>>, k: int)
    requires
        answered(events),
        0 <= k < events.len(),
        asked(events, k) is Poll || asked(events, k) is Send,
    ensures
        asked(events, k) matches Act::Poll(j) ==> 0 <= j < 12 && (events[k] is Polled
            || events[k] is PollFailed),
        asked(events, k) matches Act::Send(i, _) ==> 0 <= i < connected(events, k).len() && (
        events[k] is Sent || events[k] is SendFailed),
        events[k] is PollFailed ==> asked(events, k + 1) == Act::Stop(
            StopReason::SubscriptionFailed,
        ),
        !(events[k] is PollFailed) ==> {
            ||| asked(events, k + 1) is Send && connected(events, k + 1) == connected(events, k)
            ||| asked(events, k + 1) is Poll && connected(events, k + 1) == connected(events, k)
            ||| asked(events, k + 1) == Act::Accept && connected(events, k + 1).len() == 0
            ||| asked(events, k + 1) == Act::TryAccept && connected(events, k + 1).len() > 0
        },
{
    one_further(events, k);
}

/// Which events answer what the loop asked for: each action has its own, and after
/// the end of the loop there is none.
pub proof fn which_events_answer<S>(events: Seq<Happening<S>>, event: Happening<S>)
    requires
        answered(events),
    ensures
        run(events).0.expects(event) <==> (match run(events).1 {
            Act::Accept => event is Accepted || event is AcceptFailed,
            Act::BackOff => event is Slept || event is SleepFailed,
            Act::TryAccept => event is Accepted || event is NoConnection,
            Act::Receive(_) => event is Received || event is NothingReceived
                || event is Disconnected,
            Act::CarryOut(_, _) => event is CarriedOut,
            Act::Poll(_) => event is Polled || event is PollFailed,
            Act::Send(_, _) => event is Sent || event is SendFailed,
            Act::Stop(_) => false,
        }),
{
    always_in_order(events);
}

/// A round is under way between two moments: it began at `p` by looking for one
/// more client, and the next one has not begun before `q`.
pub open spec fn in_one_round<S>(events: Seq<Happening<S>>, p: int, q: int) -> bool {
    &&& 0 <= p < q <= events.len()
    &&& asked(events, p) == Act::TryAccept
    &&& forall|k: int|
        p < k < q ==> !(#[trigger] asked(events, k) is TryAccept) && !(asked(events, k) is Accept)
}

/// The reads and polls that are asked for strictly between two moments, in order.
pub open spec fn reads_and_polls<S>(events: Seq<Happening<S>>, p: int, q: int) -> Seq<Act>
    decreases q - p,
{
    if q <= p + 1 {
        seq![]
    } else {
        let before = reads_and_polls(events, p, q - 1);
        match asked(events, q - 1) {
            Act::Receive(i) => before.push(Act::Receive(i)),
            Act::Poll(j) => before.push(Act::Poll(j)),
            _ => before,
        }
    }
}

/// Where a round stands, by what it has read and polled.
spec fn round_stands<S>(events: Seq<Happening<S>>, p: int, q: int, n: nat) -> bool {
    let marks = reads_and_polls(events, p, q);
    let reads = |m: int| Seq::new(m as nat, |i: int| Act::Receive(i));
    let polls = |m: int| Seq::new(m as nat, |j: int| Act::Poll(j));
    match loop_at(events, q).stage {
        Stage::Receiving(i) => marks == reads(i) && loop_at(events, q).clients.len() == n,
        Stage::CarryingOut(i) => marks == reads(i + 1) && loop_at(events, q).clients.len() == n,
        Stage::Polling(j) => marks == reads(n as int) + polls(j),
        Stage::Sending { subscription, .. } => marks == reads(n as int) + polls(subscription + 1),
        Stage::Stopped => true,
        _ => marks == reads(n as int) + polls(SUBSCRIPTIONS as int),
    }
}

/// A round goes on as it should.
#[verifier::rlimit(40)]
proof fn round_goes_on<S>(events: Seq<Happening<S>>, p: int, q: int)
    requires
        answered(events),
        in_one_round(events, p, q),
    ensures
        round_stands(events, p, q, connected(events, p + 1).len()),
    decreases q - p,
{
    let n = connected(events, p + 1).len();
    let reads = |m: int| Seq::new(m as nat, |i: int| Act::Receive(i));
    let polls = |m: int| Seq::new(m as nat, |j: int| Act::Poll(j));
    one_further(events, p);
    if q == p + 1 {
        assert(reads_and_polls(events, p, q) =~= reads(0));
    } else {
        assert(in_one_round(events, p, q - 1));
        round_goes_on(events, p, q - 1);
        one_further(events, q - 1);
        let before = reads_and_polls(events, p, q - 1);
        let now = reads_and_polls(events, p, q);
        match loop_at(events, q - 1).stage {
            Stage::Receiving(i) => {
                assert(asked(events, q - 1) == Act::Receive(i));
                assert(now =~= reads(i + 1));
                assert(reads(i + 1) + polls(0) =~= reads(i + 1));
            },
            Stage::CarryingOut(i) => {
                assert(reads(i + 1) + polls(0) =~= reads(i + 1));
            },
            Stage::Polling(j) => {
                assert(asked(events, q - 1) == Act::Poll(j));
                assert(now =~= reads(n as int) + polls(j + 1));
            },
            _ => {},
        }
    }
}

/// A round reads from every client and polls every subscription, each once and in
/// order: what it asks for by the next round are the reads from clients `0` to
/// `n - 1`, where `n` clients are connected when reading begins, and then the polls
/// of subscriptions `0` to `11`. By its first poll it has asked for all the reads
/// and nothing else, and at a read for the reads before it.
pub proof fn a_round_reads_all_and_polls_all<S>(events: Seq<Happening<S>>, p: int, q: int)
    requires
        answered(events),
        in_one_round(events, p, q),
    ensures
        connected(events, p + 1).len() == connected(events, p).len() + (if events[p] is Accepted {
            1int
        } else {
            0int
        }),
        ({
            let n = connected(events, p + 1).len();
            let reads = Seq::new(n, |i: int| Act::Receive(i));
            match asked(events, q) {
                Act::Receive(i) => 0 <= i < n && reads_and_polls(events, p, q) == Seq::new(
                    i as nat,
                    |m: int| Act::Receive(m),
                ),
                Act::CarryOut(i, _) => 0 <= i < n && reads_and_polls(events, p, q) == Seq::new(
                    (i + 1) as nat,
                    |m: int| Act::Receive(m),
                ),
                Act::Poll(j) => 0 <= j < 12 && reads_and_polls(events, p, q) == reads + Seq::new(
                    j as nat,
                    |m: int| Act::Poll(m),
                ),
                Act::Send(_, _) => {
                    let polled = reads_and_polls(events, p, q).len() - n;
                    0 < polled <= 12 && reads_and_polls(events, p, q) == reads + Seq::new(
                        polled as nat,
                        |m: int| Act::Poll(m),
                    )
                },
                Act::TryAccept => reads_and_polls(events, p, q) == reads + Seq::new(
                    12,
                    |m: int| Act::Poll(m),
                ),
                Act::Accept => reads_and_polls(events, p, q) == reads + Seq::new(
                    12,
                    |m: int| Act::Poll(m),
                ),
                Act::BackOff => false,
                Act::Stop(_) => true,
            }
        }),
{
    round_goes_on(events, p, q);
    one_further(events, p);
    one_further(events, q - 1);
}

/// The items whose place is not gone, in order.
pub open spec fn without<T>(items: Seq<T>, gone: spec_fn(int) -> bool) -> Seq<T> {
    Seq::new(items.len(), |i: int| i).filter(|i: int| !gone(i)).map_values(|i: int| items[i])
}

/// Filtering goes by what the predicate says of the items.
proof fn filters_agree<A>(items: Seq<A>, f: spec_fn(A) -> bool, g: spec_fn(A) -> bool)
    requires
        forall|k: int| 0 <= k < items.len() ==> f(#[trigger] items[k]) == g(items[k]),
    ensures
        items.filter(f) == items.filter(g),
    decreases items.len(),
{
    reveal(Seq::filter);
    if items.len() > 0 {
        assert forall|k: int| 0 <= k < items.drop_last().len() implies f(
            #[trigger] items.drop_last()[k],
        ) == g(items.drop_last()[k]) by {
            assert(items.drop_last()[k] == items[k]);
        }
        filters_agree(items.drop_last(), f, g);
        assert(items.last() == items[items.len() - 1]);
    }
}

/// The listed indices are those that a filter keeps.
proof fn alive_is_filtered(dead: Seq<usize>, n: nat)
    ensures
        alive(dead, n) == Seq::new(n, |i: int| i).filter(|i: int| !dead.contains(i as usize)),
    decreases n,
{
    let all = Seq::new(n, |i: int| i);
    let keep = |i: int| !dead.contains(i as usize);
    reveal(Seq::filter);
    if n > 0 {
        alive_is_filtered(dead, (n - 1) as nat);
        assert(all.drop_last() =~= Seq::new((n - 1) as nat, |i: int| i));
    }
    assert(alive(dead, n) =~= all.filter(keep));
}

/// Who survives is who is not gone.
proof fn survivors_are_not_gone<T>(items: Seq<T>, dead: Seq<usize>, gone: spec_fn(int) -> bool)
    requires
        items.len() <= usize::MAX,
        forall|i: int| 0 <= i < items.len() ==> #[trigger] dead.contains(i as usize) == gone(i),
    ensures
        survivors(items, dead) == without(items, gone),
{
    let all = Seq::new(items.len(), |i: int| i);
    alive_is_filtered(dead, items.len());
    filters_agree(all, |i: int| !dead.contains(i as usize), |i: int| !gone(i));
    assert(survivors(items, dead) =~= without(items, gone));
}

/// What a list of indices holds with one more.
proof fn one_more_index(dead: Seq<usize>, last: usize, i: usize)
    ensures
        dead.push(last).contains(i) <==> dead.contains(i) || last == i,
{
    let all = dead.push(last);
    if dead.contains(i) {
        let k = choose|k: int| 0 <= k < dead.len() && dead[k] == i;
        assert(all[k] == i);
    }
    assert(all[dead.len() as int] == last);
    if all.contains(i) && last != i {
        let k = choose|k: int| 0 <= k < all.len() && all[k] == i;
        assert(dead[k] == i);
    }
}

/// Between two moments, a read from client `i` found its stream ended.
pub open spec fn disconnected<S>(events: Seq<Happening<S>>, p: int, q: int, i: int) -> bool {
    exists|k: int|
        p < k < q && #[trigger] asked(events, k) == Act::Receive(i) && events[k] is Disconnected
}

/// One moment further, a client may be found gone by the last read.
proof fn disconnected_by_the_last<S>(events: Seq<Happening<S>>, p: int, q: int, i: int)
    requires
        p < q,
    ensures
        disconnected(events, p, q + 1, i) <==> disconnected(events, p, q, i) || (asked(events, q)
            == Act::Receive(i) && events[q] is Disconnected),
{
    if disconnected(events, p, q + 1, i) {
        let k = choose|k: int|
            p < k < q + 1 && #[trigger] asked(events, k) == Act::Receive(i)
                && events[k] is Disconnected;
        assert(k < q || k == q);
    }
}

/// While a round reads, the marked clients are those that were found gone.
proof fn marked_while_reading<S>(events: Seq<Happening<S>>, p: int, q: int)
    requires
        answered(events),
        in_one_round(events, p, q),
        loop_at(events, q).stage is Receiving || loop_at(events, q).stage is CarryingOut,
    ensures
        forall|i: int|
            0 <= i < loop_at(events, q).clients.len() ==> #[trigger] loop_at(
                events,
                q,
            ).dead.contains(i as usize) == disconnected(events, p, q, i),
    decreases q - p,
{
    one_further(events, p);
    if q > p + 1 {
        assert(in_one_round(events, p, q - 1));
        one_further(events, q - 1);
        round_goes_on(events, p, q - 1);
        assert(loop_at(events, q - 1).stage is Receiving || loop_at(
            events,
            q - 1,
        ).stage is CarryingOut);
        marked_while_reading(events, p, q - 1);
        let before = loop_at(events, q - 1);
        assert forall|i: int| 0 <= i < loop_at(events, q).clients.len() implies #[trigger] loop_at(
            events,
            q,
        ).dead.contains(i as usize) == disconnected(events, p, q, i) by {
            assert(before.dead.contains(i as usize) == disconnected(events, p, q - 1, i));
            disconnected_by_the_last(events, p, q - 1, i);
            if let Stage::Receiving(m) = before.stage {
                one_more_index(before.dead, m as usize, i as usize);
            }
        }
    } else {
        assert forall|i: int| 0 <= i < loop_at(events, q).clients.len() implies #[trigger] loop_at(
            events,
            q,
        ).dead.contains(i as usize) == disconnected(events, p, q, i) by {
            assert(loop_at(events, p).dead.len() == 0);
        }
    }
}

/// Who disconnected is removed before the first poll, and nobody else: the clients
/// are then those whose read in this round did not find the stream ended, in their
/// order.
pub proof fn who_disconnected_is_removed<S>(events: Seq<Happening<S>>, p: int, q: int)
    requires
        answered(events),
        in_one_round(events, p, q),
        asked(events, q) == Act::Poll(0),
    ensures
        connected(events, q) == without(
            connected(events, q - 1),
            |i: int| disconnected(events, p, q, i),
        ),
{
    one_further(events, q - 1);
    one_further(events, p);
    let before = loop_at(events, q - 1);
    let gone = |i: int| disconnected(events, p, q, i);
    assert(q > p + 1);
    assert(in_one_round(events, p, q - 1));
    round_goes_on(events, p, q - 1);
    marked_while_reading(events, p, q - 1);
    let dead = match (before.stage, events[q - 1]) {
        (Stage::Receiving(i), Happening::Disconnected) => before.dead.push(i as usize),
        _ => before.dead,
    };
    assert forall|i: int| 0 <= i < before.clients.len() implies #[trigger] dead.contains(
        i as usize,
    ) == gone(i) by {
        assert(before.dead.contains(i as usize) == disconnected(events, p, q - 1, i));
        disconnected_by_the_last(events, p, q - 1, i);
        if let Stage::Receiving(m) = before.stage {
            one_more_index(before.dead, m as usize, i as usize);
        }
    }
    survivors_are_not_gone(before.clients, dead, gone);
}

/// The polls of a round are under way between two moments: they began at `r`, and
/// the next round has not begun before `q`.
pub open spec fn in_one_rounds_polls<S>(events: Seq<Happening<S>>, r: int, q: int) -> bool {
    &&& 0 <= r < q <= events.len()
    &&& asked(events, r) == Act::Poll(0)
    &&& forall|k: int|
        r < k < q ==> !(#[trigger] asked(events, k) is TryAccept) && !(asked(events, k) is Accept)
}

/// Between two moments, a send to client `i` failed.
pub open spec fn lost<S>(events: Seq<Happening<S>>, r: int, q: int, i: int) -> bool {
    exists|k: int|
        r < k < q && (#[trigger] asked(events, k) matches Act::Send(c, _) && c == i)
            && events[k] is SendFailed
}

/// One moment further, a client may be lost by the last send.
proof fn lost_by_the_last<S>(events: Seq<Happening<S>>, r: int, q: int, i: int)
    requires
        r < q,
    ensures
        lost(events, r, q + 1, i) <==> lost(events, r, q, i) || ((asked(events, q) matches Act::Send(
            c,
            _,
        ) && c == i) && events[q] is SendFailed),
{
    if lost(events, r, q + 1, i) {
        let k = choose|k: int|
            r < k < q + 1 && (#[trigger] asked(events, k) matches Act::Send(c, _) && c == i)
                && events[k] is SendFailed;
        assert(k < q || k == q);
    }
}

/// A send that is asked for is the first of the plan.
proof fn send_is_the_first<S>(events: Seq<Happening<S>>, k: int)
    requires
        answered(events),
        0 <= k <= events.len(),
    ensures
        asked(events, k) matches Act::Send(i, bytes) ==> (loop_at(
            events,
            k,
        ).stage matches Stage::Sending { messages, plan, .. } && plan.len() > 0 && plan[0].client
            == i && messages[plan[0].message as int].bytes == bytes),
{
    if k > 0 {
        one_further(events, k - 1);
    } else {
        assert(events.take(0) =~= seq![]);
    }
}

/// When the polls of a round begin, nobody is marked.
proof fn none_marked_at_first_poll<S>(events: Seq<Happening<S>>, r: int)
    requires
        answered(events),
        0 <= r <= events.len(),
        asked(events, r) == Act::Poll(0),
    ensures
        loop_at(events, r).dead.len() == 0,
{
    if r > 0 {
        one_further(events, r - 1);
    } else {
        assert(events.take(0) =~= seq![]);
    }
}

/// While a round polls and sends, the clients stay, and the marked ones are those
/// to whom a send failed.
proof fn marked_while_sending<S>(events: Seq<Happening<S>>, r: int, q: int)
    requires
        answered(events),
        r == q || in_one_rounds_polls(events, r, q),
        0 <= r <= q <= events.len(),
        asked(events, r) == Act::Poll(0),
        loop_at(events, q).stage is Polling || loop_at(events, q).stage is Sending,
    ensures
        loop_at(events, q).clients == connected(events, r),
        forall|i: int|
            0 <= i < connected(events, r).len() ==> #[trigger] loop_at(events, q).dead.contains(
                i as usize,
            ) == lost(events, r, q, i),
    decreases q - r,
{
    none_marked_at_first_poll(events, r);
    if q > r {
        one_further(events, q - 1);
        let before = loop_at(events, q - 1);
        if q - 1 > r {
            assert(in_one_rounds_polls(events, r, q - 1));
            assert(!(asked(events, q - 1) is TryAccept) && !(asked(events, q - 1) is Accept));
        }
        polls_stay_polls(events, r, q - 1);
        marked_while_sending(events, r, q - 1);
        send_is_the_first(events, q - 1);
        assert forall|i: int| 0 <= i < connected(events, r).len() implies #[trigger] loop_at(
            events,
            q,
        ).dead.contains(i as usize) == lost(events, r, q, i) by {
            assert(before.dead.contains(i as usize) == lost(events, r, q - 1, i));
            if q - 1 > r {
                lost_by_the_last(events, r, q - 1, i);
            }
            if let Stage::Sending { plan, .. } = before.stage {
                one_more_index(before.dead, plan[0].client, i as usize);
            }
        }
    }
}

/// While a round polls and sends, and goes on, it does nothing else.
proof fn polls_stay_polls<S>(events: Seq<Happening<S>>, r: int, q: int)
    requires
        answered(events),
        0 <= r <= q < events.len(),
        asked(events, r) == Act::Poll(0),
        forall|k: int|
            r < k <= q ==> !(#[trigger] asked(events, k) is TryAccept) && !(asked(
                events,
                k,
            ) is Accept),
    ensures
        loop_at(events, q).stage is Polling || loop_at(events, q).stage is Sending,
    decreases q - r,
{
    one_further(events, q);
    if q > r {
        polls_stay_polls(events, r, q - 1);
        one_further(events, q - 1);
        assert(!(asked(events, q) is TryAccept) && !(asked(events, q) is Accept));
    }
}

/// Whom a send failed to is removed by the end of the round, and nobody else: the
/// clients of the next round are those that the round polled for, without those to
/// whom a send failed, in their order. Until then all of them stay.
pub proof fn whom_a_send_failed_to_is_removed<S>(events: Seq<Happening<S>>, r: int, q: int)
    requires
        answered(events),
        in_one_rounds_polls(events, r, q),
    ensures
        asked(events, q) is Accept || asked(events, q) is TryAccept ==> connected(events, q)
            == without(connected(events, r), |i: int| lost(events, r, q, i)),
        asked(events, q) is Poll || asked(events, q) is Send ==> connected(events, q)
            == connected(events, r),
{
    one_further(events, q - 1);
    polls_stay_polls(events, r, q - 1);
    let before = loop_at(events, q - 1);
    if q - 1 > r {
        assert(in_one_rounds_polls(events, r, q - 1));
    }
    marked_while_sending(events, r, q - 1);
    if asked(events, q) is Poll || asked(events, q) is Send {
        marked_while_sending(events, r, q);
    }
    if asked(events, q) is Accept || asked(events, q) is TryAccept {
        let gone = |i: int| lost(events, r, q, i);
        let dead = match (before.stage, events[q - 1]) {
            (Stage::Sending { plan, .. }, Happening::SendFailed) => {
                before.dead.push(plan[0].client)
            },
            _ => before.dead,
        };
        send_is_the_first(events, q - 1);
        assert forall|i: int| 0 <= i < before.clients.len() implies #[trigger] dead.contains(
            i as usize,
        ) == gone(i) by {
            assert(before.dead.contains(i as usize) == lost(events, r, q - 1, i));
            if q - 1 > r {
                lost_by_the_last(events, r, q - 1, i);
            }
            if let Stage::Sending { plan, .. } = before.stage {
                one_more_index(before.dead, plan[0].client, i as usize);
            }
        }
        survivors_are_not_gone(before.clients, dead, gone);
    }
}

/// The wire bytes of those of the polled messages that are for a client, in the
/// order of the poll: those that can be encoded, are attributed to its principal or
/// to none, and are scoped to its session or to none.
pub open spec fn bytes_for<S>(polled: Seq<Polled>, client: Client<S>) -> Seq<Seq<u8>> {
    polled.filter(
        |m: Polled|
            {
                &&& m.outbound() is Some
                &&& m.outbound()->0.target is None || m.outbound()->0.target == client.principal
                &&& m.outbound()->0.session is None || m.outbound()->0.session
                    == client.session_id
            },
    ).map_values(|m: Polled| m.outbound()->0.bytes)
}

/// The bytes that the loop asks to send to client `i` strictly between two moments,
/// in order.
pub open spec fn sent_to<S>(events: Seq<Happening<S>>, p: int, q: int, i: int) -> Seq<Seq<u8>>
    decreases q - p,
{
    if q <= p + 1 {
        seq![]
    } else {
        match asked(events, q - 1) {
            Act::Send(c, bytes) if c == i => sent_to(events, p, q - 1, i).push(bytes),
            _ => sent_to(events, p, q - 1, i),
        }
    }
}

/// What a poll brought is being sent between two moments: the poll was asked for at
/// `p`, and only sends since.
pub open spec fn in_one_broadcast<S>(events: Seq<Happening<S>>, p: int, q: int) -> bool {
    &&& 0 <= p < q <= events.len()
    &&& asked(events, p) is Poll
    &&& events[p] is Polled
    &&& forall|k: int| p < k < q ==> #[trigger] asked(events, k) is Send
}

/// The bytes of a list of sends.
spec fn bytes_of(list: Seq<Delivery>, messages: Seq<Outbound>) -> Seq<Seq<u8>> {
    list.map_values(|d: Delivery| messages[d.message as int].bytes)
}

/// The bytes of what is due to a client from the first `n` messages.
proof fn due_bytes<S>(client: Client<S>, i: usize, messages: Seq<Outbound>, n: nat)
    requires
        n <= messages.len() <= usize::MAX,
    ensures
        bytes_of(due_to(client, i, messages, n), messages) == messages.take(n as int).filter(
            |m: Outbound| m.goes_to(client),
        ).map_values(|m: Outbound| m.bytes),
    decreases n,
{
    let goes = |m: Outbound| m.goes_to(client);
    let bytes = |m: Outbound| m.bytes;
    reveal(Seq::filter);
    if n > 0 {
        due_bytes(client, i, messages, (n - 1) as nat);
        let head = messages.take(n - 1);
        assert(messages.take(n as int).drop_last() =~= head);
        assert(messages.take(n as int).last() == messages[n - 1]);
        let d = Delivery { client: i, message: (n - 1) as usize };
        let before = due_to(client, i, messages, (n - 1) as nat);
        if messages[n - 1].goes_to(client) {
            assert(bytes_of(before.push(d), messages) =~= bytes_of(before, messages).push(
                messages[n - 1].bytes,
            ));
            assert(head.filter(goes).push(messages[n - 1]).map_values(bytes) =~= head.filter(
                goes,
            ).map_values(bytes).push(messages[n - 1].bytes));
        }
    }
    assert(bytes_of(due_to(client, i, messages, n), messages) =~= messages.take(
        n as int,
    ).filter(goes).map_values(bytes));
}

/// Filtering the outbound messages of a poll is filtering the poll.
proof fn outbound_bytes<S>(polled: Seq<Polled>, client: Client<S>)
    ensures
        outbound_of(polled).filter(|m: Outbound| m.goes_to(client)).map_values(
            |m: Outbound| m.bytes,
        ) == bytes_for(polled, client),
    decreases polled.len(),
{
    let goes = |m: Outbound| m.goes_to(client);
    let bytes = |m: Outbound| m.bytes;
    reveal(Seq::filter);
    if polled.len() > 0 {
        let head = polled.drop_last();
        outbound_bytes(head, client);
        if let Some(m) = polled.last().outbound() {
            let before = outbound_of(head);
            assert(before.push(m).drop_last() =~= before);
            if m.goes_to(client) {
                assert(before.filter(goes).push(m).map_values(bytes) =~= before.filter(
                    goes,
                ).map_values(bytes).push(m.bytes));
            }
        }
    }
    assert(outbound_of(polled).filter(goes).map_values(bytes) =~= bytes_for(polled, client));
}

/// What is due to a client from a poll are the bytes that are for it.
proof fn due_is_for<S>(client: Client<S>, i: usize, polled: Seq<Polled>)
    requires
        outbound_of(polled).len() <= usize::MAX,
    ensures
        bytes_of(
            due_to(client, i, outbound_of(polled), outbound_of(polled).len()),
            outbound_of(polled),
        ) == bytes_for(polled, client),
{
    let messages = outbound_of(polled);
    due_bytes(client, i, messages, messages.len());
    assert(messages.take(messages.len() as int) =~= messages);
    outbound_bytes(polled, client);
}

/// The sends that are left of a broadcast.
spec fn left_at<S>(events: Seq<Happening<S>>, q: int) -> Seq<Delivery> {
    match loop_at(events, q).stage {
        Stage::Sending { plan, .. } => plan,
        _ => seq![],
    }
}

/// Where a broadcast stands: what has been sent to a client that is not lost,
/// followed by what is left for it, is what is for it.
spec fn broadcast_stands<S>(events: Seq<Happening<S>>, r: int, p: int, q: int, i: int) -> bool {
    let polled = events[p]->Polled_0;
    let all = bytes_for(polled, connected(events, r)[i]);
    let sent = sent_to(events, p, q, i);
    let left = bytes_of(plan_to(left_at(events, q), i as usize), outbound_of(polled));
    &&& loop_at(events, q).stage matches Stage::Sending { messages, .. } ==> messages
        == outbound_of(polled)
    &&& !lost(events, r, q, i) ==> sent + left == all
    &&& lost(events, r, p, i) ==> sent.len() == 0
    &&& lost(events, r, q, i) && !lost(events, r, p, i) ==> 0 < sent.len() <= all.len() && sent
        == all.take(sent.len() as int)
}

/// What is left of a broadcast after a step from sending.
proof fn left_after<S>(events: Seq<Happening<S>>, q: int)
    requires
        answered(events),
        0 <= q < events.len(),
        loop_at(events, q).stage is Sending,
    ensures
        left_at(events, q).len() > 0,
        events[q] is Sent ==> left_at(events, q + 1) == left_at(events, q).skip(1),
        !(events[q] is Sent) ==> left_at(events, q + 1) == past_client(
            left_at(events, q).skip(1),
            left_at(events, q)[0].client,
        ),
        loop_at(events, q + 1).stage matches Stage::Sending { messages, .. } ==> messages == loop_at(
            events,
            q,
        ).stage->messages,
{
    one_further(events, q);
    let plan = left_at(events, q);
    let next = if events[q] is Sent {
        plan.skip(1)
    } else {
        past_client(plan.skip(1), plan[0].client)
    };
    if next.len() == 0 {
        assert(next =~= seq![]);
    }
}

/// A broadcast goes on as it should.
#[verifier::rlimit(40)]
proof fn broadcast_goes_on<S>(events: Seq<Happening<S>>, r: int, p: int, q: int, i: int)
    requires
        answered(events),
        r == p || in_one_rounds_polls(events, r, p),
        0 <= r <= p,
        asked(events, r) == Act::Poll(0),
        in_one_broadcast(events, p, q),
        0 <= i < connected(events, r).len(),
    ensures
        broadcast_stands(events, r, p, q, i),
    decreases q - p,
{
    let polled = events[p]->Polled_0;
    let messages = outbound_of(polled);
    let all = bytes_for(polled, connected(events, r)[i]);
    one_further(events, p);
    one_further(events, q - 1);
    marked_while_sending(events, r, p);
    crate::proxy_laws::outbound_is_short(polled);
    if q == p + 1 {
        let state = loop_at(events, p);
        let plan = due(state.clients, state.dead, messages, state.clients.len());
        assert(left_at(events, q) =~= plan);
        due_is_own(state.clients, state.dead, messages, state.clients.len(), i as usize);
        due_is_for(state.clients[i], i as usize, polled);
        assert(state.dead.contains(i as usize) == lost(events, r, p, i));
        if p > r {
            lost_by_the_last(events, r, p, i);
        } else {
            assert(!lost(events, r, q, i));
        }
        assert(sent_to(events, p, q, i) + all =~= all);
    } else {
        let before = loop_at(events, q - 1);
        assert(in_one_broadcast(events, p, q - 1));
        broadcast_goes_on(events, r, p, q - 1, i);
        assert(asked(events, q - 1) is Send);
        send_is_the_first(events, q - 1);
        left_after(events, q - 1);
        assert(in_one_rounds_polls(events, r, q - 1)) by {
            assert forall|k: int| r < k < q - 1 implies !(#[trigger] asked(events, k) is TryAccept)
                && !(asked(events, k) is Accept) by {
                if k > p {
                    assert(asked(events, k) is Send);
                }
            }
        }
        marked_while_sending(events, r, q - 1);
        lost_by_the_last(events, r, q - 1, i);
        let plan = left_at(events, q - 1);
        let d = plan[0];
        let c = i as usize;
        let sent = sent_to(events, p, q - 1, i);
        plan_to_from_front(plan, c);
        let rest = plan_to(plan.skip(1), c);
        assert(is_due(before.clients, before.dead, messages, d));
        if d.client == c {
            let bytes = messages[d.message as int].bytes;
            assert(asked(events, q - 1) == Act::Send(i, bytes));
            assert(!before.dead.contains(c));
            assert(!lost(events, r, q - 1, i));
            assert(bytes_of(seq![d] + rest, messages) =~= seq![bytes] + bytes_of(rest, messages));
            assert(sent + (seq![bytes] + bytes_of(rest, messages)) =~= sent.push(bytes) + bytes_of(
                rest,
                messages,
            ));
            assert(sent.push(bytes) =~= all.take(sent.len() as int + 1));
            if lost(events, r, p, i) {
                lost_stays(events, r, p, q - 1, i);
            }
        } else {
            past_client_keeps_others(plan.skip(1), d.client, c);
        }
    }
}

/// Who is lost stays lost.
proof fn lost_stays<S>(events: Seq<Happening<S>>, r: int, p: int, q: int, i: int)
    requires
        p <= q,
        lost(events, r, p, i),
    ensures
        lost(events, r, q, i),
{
    let k = choose|k: int|
        r < k < p && (#[trigger] asked(events, k) matches Act::Send(c, _) && c == i)
            && events[k] is SendFailed;
    assert(asked(events, k) matches Act::Send(c, _) && c == i);
}

/// What a poll brings is sent to each client that it is for, in the order of the
/// poll. When the broadcast is over, a client to whom no send has failed in this
/// round was sent the bytes of every message that is for it, in that order, and
/// nothing else. A client to whom a send failed in this broadcast was sent the
/// first of them, up to that send, and one to whom a send failed earlier in the
/// round nothing. While the broadcast goes on, each was sent the first of its
/// messages.
pub proof fn a_poll_is_sent_to_whom_it_is_for<S>(
    events: Seq<Happening<S>>,
    r: int,
    p: int,
    q: int,
    i: int,
)
    requires
        answered(events),
        r == p || in_one_rounds_polls(events, r, p),
        0 <= r <= p,
        asked(events, r) == Act::Poll(0),
        in_one_broadcast(events, p, q),
        0 <= i < connected(events, p).len(),
    ensures
        events[p] matches Happening::Polled(polled) ==> {
            let all = bytes_for(polled, connected(events, p)[i]);
            let sent = sent_to(events, p, q, i);
            &&& !(asked(events, q) is Send) && !lost(events, r, q, i) ==> sent == all
            &&& lost(events, r, p, i) ==> sent.len() == 0
            &&& sent.len() <= all.len() && sent == all.take(sent.len() as int)
        },
{
    one_further(events, p);
    one_further(events, q - 1);
    marked_while_sending(events, r, p);
    broadcast_goes_on(events, r, p, q, i);
    let polled = events[p]->Polled_0;
    let all = bytes_for(polled, connected(events, p)[i]);
    let sent = sent_to(events, p, q, i);
    let left = bytes_of(plan_to(left_at(events, q), i as usize), outbound_of(polled));
    if !(asked(events, q) is Send) {
        reveal(Seq::filter);
        assert(left_at(events, q) =~= seq![]);
        assert(left =~= seq![]);
        assert(sent + left =~= sent);
    }
    if !lost(events, r, q, i) {
        assert(sent =~= (sent + left).take(sent.len() as int));
    } else if lost(events, r, p, i) {
        assert(sent =~= all.take(0));
    }
}

/// The sends of a broadcast go client by client, in the order of the clients, and
/// after a failed send nothing more is sent to that client.
pub proof fn sends_go_client_by_client<S>(events: Seq<Happening<S>>, p: int, k: int, q: int)
    requires
        answered(events),
        in_one_broadcast(events, p, q),
        p < k < q,
    ensures
        asked(events, q) is Send ==> asked(events, k)->Send_0 <= asked(events, q)->Send_0,
        asked(events, q) is Send && events[k] is SendFailed ==> asked(events, k)->Send_0 < asked(
            events,
            q,
        )->Send_0,
{
    let first = asked(events, k)->Send_0;
    assert(asked(events, k) is Send);
    send_is_the_first(events, k);
    one_further(events, k);
    later_sends_come_after(events, p, k, q);
    send_is_the_first(events, q);
    if asked(events, q) is Send {
        let d = left_at(events, q)[0];
        assert(d.client >= first);
    }
}

/// What is left of a broadcast comes after a send that was made.
proof fn later_sends_come_after<S>(events: Seq<Happening<S>>, p: int, k: int, q: int)
    requires
        answered(events),
        in_one_broadcast(events, p, q),
        p < k < q,
        asked(events, k) is Send,
    ensures
        forall|m: int|
            0 <= m < left_at(events, q).len() ==> {
                &&& (#[trigger] left_at(events, q)[m]).client >= asked(events, k)->Send_0
                &&& events[k] is SendFailed ==> left_at(events, q)[m].client > asked(
                    events,
                    k,
                )->Send_0
            },
    decreases q - k,
{
    let before = loop_at(events, q - 1);
    let plan = left_at(events, q - 1);
    let next = left_at(events, q);
    assert(asked(events, q - 1) is Send);
    one_further(events, q - 1);
    send_is_the_first(events, q - 1);
    left_after(events, q - 1);
    let rest = plan.skip(1);
    if q - 1 > k {
        assert(in_one_broadcast(events, p, q - 1));
        later_sends_come_after(events, p, k, q - 1);
        if events[q - 1] is SendFailed {
            past_client_is_later(rest, plan[0].client);
        }
        assert forall|m: int| 0 <= m < next.len() implies {
            &&& (#[trigger] next[m]).client >= asked(events, k)->Send_0
            &&& events[k] is SendFailed ==> next[m].client > asked(events, k)->Send_0
        } by {
            if events[q - 1] is Sent {
                assert(next[m] == plan[m + 1]);
            } else {
                let skipped = rest.len() - next.len();
                assert(next[m] == rest[skipped + m]);
                assert(rest[skipped + m] == plan[skipped + m + 1]);
            }
        }
    } else {
        past_client_is_later(rest, plan[0].client);
        assert forall|m: int| 0 <= m < next.len() implies {
            &&& (#[trigger] next[m]).client >= asked(events, k)->Send_0
            &&& events[k] is SendFailed ==> next[m].client > asked(events, k)->Send_0
        } by {
            if events[q - 1] is Sent {
                assert(next[m] == plan[m + 1]);
                assert(precedes(plan[0], plan[m + 1]));
            } else {
                let skipped = rest.len() - next.len();
                assert(next[m] == rest[skipped + m]);
                assert(rest[skipped + m] == plan[skipped + m + 1]);
                assert(precedes(plan[0], plan[skipped + m + 1]));
                assert(next[0].client != plan[0].client);
                assert(next[0] == plan[skipped + 1]);
                assert(precedes(plan[0], plan[skipped + 1]));
                if m > 0 {
                    assert(precedes(plan[skipped + 1], plan[skipped + m + 1]));
                }
            }
        }
    }
}

/// Skipping sends to a client leaves an end of the plan that begins with another.
proof fn past_client_is_later(plan: Seq<Delivery>, client: usize)
    ensures
        past_client(plan, client).len() <= plan.len(),
        past_client(plan, client) == plan.skip(plan.len() - past_client(plan, client).len()),
        past_client(plan, client).len() > 0 ==> past_client(plan, client)[0].client != client,
    decreases plan.len(),
{
    if plan.len() > 0 && plan[0].client == client {
        past_client_is_later(plan.skip(1), client);
        let rest = past_client(plan.skip(1), client);
        assert(plan.skip(1).skip(plan.skip(1).len() - rest.len()) =~= plan.skip(
            plan.len() - rest.len(),
        ));
    } else {
        assert(plan.skip(0) =~= plan);
    }
}

} // verus!
