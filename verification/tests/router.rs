use drogue_endpoint::router::{CommandMessage, CommandRouter, CommandSubscribe, CommandUnsubscribe};

fn sorted(mut v: Vec<(String, u32, String)>) -> Vec<(String, u32, String)> {
    v.sort();
    v
}

fn broadcast(router: &mut CommandRouter<u32>, text: &str) -> Vec<(String, u32, String)> {
    let out = router.handle_command(CommandMessage(text.to_string()));
    sorted(
        out.into_iter()
            .map(|d| (d.device_id, d.device, d.message.0))
            .collect(),
    )
}

#[test]
fn broadcast_reaches_each_device_once() {
    let mut router = CommandRouter::new();
    router.subscribe("a".to_string(), 1u32);
    router.subscribe("b".to_string(), 2u32);
    router.subscribe("c".to_string(), 3u32);
    assert_eq!(
        broadcast(&mut router, "go"),
        vec![
            ("a".to_string(), 1, "go".to_string()),
            ("b".to_string(), 2, "go".to_string()),
            ("c".to_string(), 3, "go".to_string()),
        ]
    );
}

#[test]
fn broadcast_after_broadcast_delivers_nothing() {
    let mut router = CommandRouter::new();
    router.subscribe("a".to_string(), 1u32);
    assert_eq!(broadcast(&mut router, "one").len(), 1);
    assert_eq!(broadcast(&mut router, "two"), vec![]);
}

#[test]
fn broadcast_to_empty_router_delivers_nothing() {
    let mut router: CommandRouter<u32> = CommandRouter::new();
    assert_eq!(broadcast(&mut router, "x"), vec![]);
}

#[test]
fn broadcast_skips_unsubscribed() {
    let mut router = CommandRouter::new();
    router.subscribe("a".to_string(), 1u32);
    router.subscribe("b".to_string(), 2u32);
    router.unsubscribe("a".to_string());
    assert_eq!(
        broadcast(&mut router, "x"),
        vec![("b".to_string(), 2, "x".to_string())]
    );
}

#[test]
fn resubscribe_keeps_newest_device() {
    let mut router = CommandRouter::new();
    router.subscribe("a".to_string(), 1u32);
    router.subscribe("a".to_string(), 7u32);
    assert_eq!(
        broadcast(&mut router, "x"),
        vec![("a".to_string(), 7, "x".to_string())]
    );
}

#[test]
fn subscribe_after_broadcast_gets_next_broadcast() {
    let mut router = CommandRouter::new();
    router.subscribe("a".to_string(), 1u32);
    broadcast(&mut router, "first");
    router.subscribe("b".to_string(), 2u32);
    assert_eq!(
        broadcast(&mut router, "second"),
        vec![("b".to_string(), 2, "second".to_string())]
    );
}

#[test]
fn subscription_messages_are_handled() {
    let mut router = CommandRouter::new();
    router.handle_subscribe(CommandSubscribe("test".to_string(), 5u32));
    router.handle_subscribe(CommandSubscribe("other".to_string(), 6u32));
    router.handle_unsubscribe(CommandUnsubscribe("other".to_string()));
    assert_eq!(
        broadcast(&mut router, "m"),
        vec![("test".to_string(), 5, "m".to_string())]
    );
}

#[test]
fn unsubscribe_of_unknown_name_changes_nothing() {
    let mut router = CommandRouter::new();
    router.subscribe("a".to_string(), 1u32);
    router.unsubscribe("nope".to_string());
    assert_eq!(broadcast(&mut router, "x").len(), 1);
}

#[test]
fn stopped_handler_is_left_registered_nowhere() {
    let mut router = CommandRouter::new();
    router.handle_subscribe(CommandSubscribe("test".to_string(), 42u32));
    router.subscribe("other".to_string(), 1u32);
    router.subscribe("test".to_string(), 2u32);
    router.handle_unsubscribe(CommandUnsubscribe("test".to_string()));
    let reached = broadcast(&mut router, "x");
    assert!(reached.iter().all(|(_, device, _)| *device != 42));
    assert_eq!(reached, vec![("other".to_string(), 1, "x".to_string())]);
}
