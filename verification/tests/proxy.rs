use cli_proxy::ingress::IngressDisposition;
use cli_proxy::outbound::{Message, PollResult, PrincipalAttribution};
use cli_proxy::proxy::{Action, Event, Proxy, StopReason};
use cli_proxy::topics::SUBSCRIPTIONS;

fn step(proxy: &mut Proxy<u8>, event: Event<u8>) -> Action {
    assert!(proxy.is_expected(&event));
    proxy.step(event)
}

fn nothing() -> Event<u8> {
    Event::Polled(PollResult { messages: vec![], dropped: 0 })
}

fn message(topic: &str, payload: &str, principal: Option<&str>) -> Message {
    Message {
        topic: topic.to_string(),
        payload: payload.to_string(),
        source_id: "s".to_string(),
        principal: match principal {
            Some(p) => PrincipalAttribution::Verified(p.to_string()),
            None => PrincipalAttribution::System,
        },
    }
}

/// Two clients: alice on S1, and alice on S2 where `second` says so.
fn two_clients(second: &[u8]) -> Proxy<u8> {
    let mut proxy = Proxy::new();
    assert!(matches!(step(&mut proxy, Event::Accepted(10)), Action::TryAccept));
    assert!(matches!(step(&mut proxy, Event::Accepted(20)), Action::Receive { client: 0 }));
    let first =
        br#"{"principal":"alice","topic":"user.v1.prompt","payload":{"session_id":"S1"}}"#;
    assert!(matches!(
        step(&mut proxy, Event::Received(first.to_vec())),
        Action::CarryOut { client: 0, .. }
    ));
    assert!(matches!(step(&mut proxy, Event::CarriedOut), Action::Receive { client: 1 }));
    assert!(matches!(
        step(&mut proxy, Event::Received(second.to_vec())),
        Action::CarryOut { client: 1, .. }
    ));
    assert!(matches!(step(&mut proxy, Event::CarriedOut), Action::Poll { subscription: 0 }));
    proxy
}

fn alice_on_s2() -> Proxy<u8> {
    two_clients(br#"{"principal":"alice","topic":"user.v1.prompt","payload":{"session_id":"S2"}}"#)
}

fn sent_to(action: &Action) -> Option<usize> {
    match action {
        Action::Send { client, .. } => Some(*client),
        _ => None,
    }
}

#[test]
fn failed_accept_backs_off_and_tries_again() {
    let mut proxy: Proxy<u8> = Proxy::new();
    assert!(matches!(step(&mut proxy, Event::AcceptFailed), Action::BackOff));
    assert!(matches!(step(&mut proxy, Event::Slept), Action::Accept));
    assert!(matches!(step(&mut proxy, Event::AcceptFailed), Action::BackOff));
    assert!(matches!(
        step(&mut proxy, Event::SleepFailed),
        Action::Stop { reason: StopReason::SleepFailed }
    ));
    assert!(!proxy.is_expected(&Event::Slept));
}

#[test]
fn quiet_round_reads_every_client_and_polls_every_subscription() {
    let mut proxy: Proxy<u8> = Proxy::new();
    step(&mut proxy, Event::Accepted(10));
    for round in 0..3 {
        let action = if round == 0 {
            step(&mut proxy, Event::Accepted(20))
        } else {
            step(&mut proxy, Event::NoConnection)
        };
        assert!(matches!(action, Action::Receive { client: 0 }));
        assert!(matches!(
            step(&mut proxy, Event::NothingReceived),
            Action::Receive { client: 1 }
        ));
        let mut action = step(&mut proxy, Event::NothingReceived);
        for expected in 0..SUBSCRIPTIONS {
            match action {
                Action::Poll { subscription } => assert_eq!(subscription, expected),
                _ => panic!("no poll"),
            }
            action = step(&mut proxy, nothing());
        }
        assert!(matches!(action, Action::TryAccept));
    }
    assert_eq!(proxy.clients.len(), 2);
}

#[test]
fn message_is_published_as_the_bound_principal() {
    let mut proxy: Proxy<u8> = Proxy::new();
    step(&mut proxy, Event::Accepted(10));
    step(&mut proxy, Event::NoConnection);
    let bytes = br#"{"principal":"alice","topic":"astrid.v1.request.x","payload":{"a":1}}"#;
    match step(&mut proxy, Event::Received(bytes.to_vec())) {
        Action::CarryOut { client, outcome } => {
            assert_eq!(client, 0);
            assert_eq!(outcome.newly_bound.as_deref(), Some("alice"));
            match outcome.disposition {
                IngressDisposition::Forward { topic, payload, principal } => {
                    assert_eq!(topic, "astrid.v1.request.x");
                    assert_eq!(payload.to_string(), "{\"a\":1}");
                    assert_eq!(principal, "alice");
                }
                _ => panic!("not forwarded"),
            }
        }
        _ => panic!("not carried out"),
    }
    assert_eq!(proxy.clients[0].principal.as_deref(), Some("alice"));
}

#[test]
fn disconnected_clients_are_removed_before_polling() {
    let mut proxy: Proxy<u8> = Proxy::new();
    step(&mut proxy, Event::Accepted(10));
    step(&mut proxy, Event::Accepted(20));
    step(&mut proxy, Event::Disconnected);
    assert_eq!(proxy.clients.len(), 2);
    assert!(matches!(
        step(&mut proxy, Event::NothingReceived),
        Action::Poll { subscription: 0 }
    ));
    assert_eq!(proxy.clients.len(), 1);
    assert_eq!(proxy.clients[0].stream, 20);
}

#[test]
fn last_client_gone_means_waiting_again() {
    let mut proxy: Proxy<u8> = Proxy::new();
    step(&mut proxy, Event::Accepted(10));
    step(&mut proxy, Event::NoConnection);
    let mut action = step(&mut proxy, Event::Disconnected);
    assert_eq!(proxy.clients.len(), 0);
    for _ in 0..SUBSCRIPTIONS {
        assert!(matches!(action, Action::Poll { .. }));
        // What is polled without clients goes nowhere.
        action = step(
            &mut proxy,
            Event::Polled(PollResult { messages: vec![message("a", "1", None)], dropped: 0 }),
        );
    }
    assert!(matches!(action, Action::Accept));
}

#[test]
fn chat_response_goes_to_its_session_only() {
    let mut proxy = alice_on_s2();
    let action = step(
        &mut proxy,
        Event::Polled(PollResult {
            messages: vec![message(
                "agent.v1.response",
                r#"{"session_id":"S2"}"#,
                Some("alice"),
            )],
            dropped: 0,
        }),
    );
    match action {
        Action::Send { client, bytes } => {
            assert_eq!(client, 1);
            assert_eq!(
                bytes,
                br#"{"payload":{"session_id":"S2"},"source_id":"s","topic":"agent.v1.response"}"#
            );
        }
        _ => panic!("not sent"),
    }
    assert!(matches!(step(&mut proxy, Event::Sent), Action::Poll { subscription: 1 }));
}

#[test]
fn principaled_message_goes_to_its_principal_only() {
    let mut proxy = two_clients(br#"{"principal":"bob"}"#);
    let action = step(
        &mut proxy,
        Event::Polled(PollResult {
            messages: vec![
                message("astrid.v1.response.x", "{}", Some("bob")),
                message("astrid.v1.capsules_loaded", "{}", None),
            ],
            dropped: 0,
        }),
    );
    assert_eq!(sent_to(&action), Some(0));
    let action = step(&mut proxy, Event::Sent);
    assert_eq!(sent_to(&action), Some(1));
    let action = step(&mut proxy, Event::Sent);
    assert_eq!(sent_to(&action), Some(1));
    assert!(matches!(step(&mut proxy, Event::Sent), Action::Poll { subscription: 1 }));
}

#[test]
fn failed_send_skips_the_client_and_removes_it_at_the_end() {
    let mut proxy = alice_on_s2();
    let three = || {
        Event::Polled(PollResult {
            messages: vec![
                message("a", "1", Some("alice")),
                message("b", "2", Some("alice")),
                message("c", "3", None),
            ],
            dropped: 0,
        })
    };
    assert_eq!(sent_to(&step(&mut proxy, three())), Some(0));
    assert_eq!(sent_to(&step(&mut proxy, Event::Sent)), Some(0));
    // The third message to client 0 is skipped.
    assert_eq!(sent_to(&step(&mut proxy, Event::SendFailed)), Some(1));
    assert_eq!(sent_to(&step(&mut proxy, Event::Sent)), Some(1));
    assert_eq!(sent_to(&step(&mut proxy, Event::Sent)), Some(1));
    assert!(matches!(step(&mut proxy, Event::Sent), Action::Poll { subscription: 1 }));
    assert_eq!(proxy.clients.len(), 2);
    // The next subscription skips the dead client altogether.
    assert_eq!(sent_to(&step(&mut proxy, three())), Some(1));
    assert!(matches!(step(&mut proxy, Event::SendFailed), Action::Poll { subscription: 2 }));
    let mut action = step(&mut proxy, nothing());
    for _ in 3..SUBSCRIPTIONS {
        action = step(&mut proxy, nothing());
    }
    assert!(matches!(action, Action::Accept));
    assert_eq!(proxy.clients.len(), 0);
}

/// Go on from a poll to the end of the round. Every poll brings the same two
/// messages to alice, and the sends to client 0 fail from number `from` on. The
/// sends made, each with its subscription, and the streams that are left.
fn round_with_failures(from: usize) -> (Vec<(usize, usize, Vec<u8>)>, Vec<u8>) {
    let mut proxy = alice_on_s2();
    let mut made: Vec<(usize, usize, Vec<u8>)> = Vec::new();
    let mut polled = 0;
    let mut to_first = 0;
    let mut event = Event::Polled(PollResult { messages: vec![], dropped: 0 });
    loop {
        match step(&mut proxy, event) {
            Action::Poll { subscription } => {
                polled = subscription;
                event = Event::Polled(PollResult {
                    messages: vec![
                        message("a", "1", Some("alice")),
                        message("b", "2", Some("alice")),
                    ],
                    dropped: 0,
                });
            }
            Action::Send { client, bytes } => {
                made.push((polled, client, bytes));
                event = Event::Sent;
                if client == 0 {
                    if to_first >= from {
                        event = Event::SendFailed;
                    }
                    to_first += 1;
                }
            }
            _ => break,
        }
    }
    (made, proxy.clients.iter().map(|client| client.stream).collect())
}

#[test]
fn failed_sends_to_one_client_do_not_touch_another() {
    let to = |made: &Vec<(usize, usize, Vec<u8>)>, c: usize| {
        made.iter().filter(|send| send.1 == c).cloned().collect::<Vec<_>>()
    };
    let (all, left) = round_with_failures(usize::MAX);
    assert_eq!(left, [10, 20]);
    assert_eq!(to(&all, 0).len(), 2 * (SUBSCRIPTIONS - 1));
    assert_eq!(to(&all, 1).len(), 2 * (SUBSCRIPTIONS - 1));
    for from in 0..6 {
        let (made, left) = round_with_failures(from);
        assert_eq!(left, [20]);
        // Client 0 gets what is due up to the first failure, that one included.
        assert_eq!(to(&made, 0), to(&all, 0)[..from + 1]);
        assert_eq!(to(&made, 1), to(&all, 1));
    }
}

/// Read from every client, in order, and run the round to its end.
fn round_of(proxy: &mut Proxy<u8>, messages: &[Option<&str>]) {
    let mut next = messages.iter();
    let mut event = Event::NoConnection;
    loop {
        match step(proxy, event) {
            Action::Receive { .. } => {
                event = match next.next().unwrap() {
                    Some(text) => Event::Received(text.as_bytes().to_vec()),
                    None => Event::Disconnected,
                }
            }
            Action::CarryOut { .. } => event = Event::CarriedOut,
            Action::Poll { .. } => event = nothing(),
            _ => break,
        }
    }
}

#[test]
fn client_is_what_it_has_sent_through_a_whole_run() {
    let mut proxy: Proxy<u8> = Proxy::new();
    step(&mut proxy, Event::Accepted(10));
    step(&mut proxy, Event::Accepted(20));
    // The first client leaves at once; the second says nothing usable yet.
    assert!(matches!(step(&mut proxy, Event::Disconnected), Action::Receive { client: 1 }));
    step(&mut proxy, Event::Received(br#"{"principal":"no way"}"#.to_vec()));
    assert!(matches!(step(&mut proxy, Event::CarriedOut), Action::Poll { subscription: 0 }));
    for _ in 0..SUBSCRIPTIONS {
        step(&mut proxy, nothing());
    }
    assert_eq!(proxy.clients.len(), 1);
    assert_eq!(proxy.clients[0].stream, 20);
    assert_eq!(proxy.clients[0].principal, None);

    // The first usable message binds, and the latest forwarded prompt tells the
    // session; a prompt of another principal is dropped.
    let sent: [(&str, Option<&str>); 4] = [
        (r#"{"principal":"bob","topic":"x","payload":{"session_id":"S0"}}"#, None),
        (r#"{"topic":"user.v1.prompt","payload":{"session_id":"S1"}}"#, Some("S1")),
        (
            r#"{"principal":"eve","topic":"user.v1.prompt","payload":{"session_id":"S9"}}"#,
            Some("S1"),
        ),
        (
            r#"{"principal":"bob","topic":"user.v1.prompt","payload":{"session_id":"S2"}}"#,
            Some("S2"),
        ),
    ];
    for (text, session) in sent {
        round_of(&mut proxy, &[Some(text)]);
        assert_eq!(proxy.clients[0].stream, 20);
        assert_eq!(proxy.clients[0].principal.as_deref(), Some("bob"));
        assert_eq!(proxy.clients[0].session_id.as_deref(), session);
    }
    round_of(&mut proxy, &[None]);
    assert!(proxy.clients.is_empty());
}

#[test]
fn failed_subscription_stops_the_loop() {
    let mut proxy = alice_on_s2();
    assert!(matches!(
        step(&mut proxy, Event::PollFailed),
        Action::Stop { reason: StopReason::SubscriptionFailed }
    ));
    assert!(!proxy.is_expected(&nothing()));
}

#[test]
fn events_out_of_turn_are_not_expected() {
    let proxy: Proxy<u8> = Proxy::new();
    assert!(proxy.is_expected(&Event::Accepted(1)));
    assert!(proxy.is_expected(&Event::AcceptFailed));
    assert!(!proxy.is_expected(&Event::NoConnection));
    assert!(!proxy.is_expected(&Event::Sent));
    assert!(!proxy.is_expected(&Event::PollFailed));
    assert!(!proxy.is_expected(&Event::CarriedOut));
}
